# relay6

Firmware for the Waveshare ESP32-S3-Relay-6CH: six relays that Home Assistant switches over the
ESPHome native API, and that follow a stored weekly schedule while Home Assistant is away. The
logic is written in Verus and verified; the hardware, the network and JSON are ordinary Rust
around it.

## Layout

- `src/` — the verified library.
  - `controller`, `arbiter`, `schedule`, `config`, `safeguard`, `channel_map`: who may switch a
    relay when. `rules`, `reach` and `laws` state what holds of every input, and `history` what
    holds over many: the interlock, the longest on-time, the daily budget, what a lost link does.
  - `api`: the ESPHome native API, from bytes to commands and back: varints, frames, Protobuf
    messages, the Noise transport, sessions, entities, connections.
  - `firmware`: everything else the device decides: the main loop, WiFi, the setup portal,
    settings, updates, the button, the buzzer. `machine` is the model of the main loop;
    `promises` and `display` state what it keeps: pins, LED, portal, and what Home Assistant sees.
- `tests/` — tests of the library, with the real outside crates.
- `app/` — the program for the board, and a fake device for the host.

## What is trusted

Calls into `prost`, `base64`, `noise-protocol` and `noise-rust-crypto`, and five functions of the
standard library, stand behind small wrappers with stated contracts: see `api/wire.rs`,
`api/noise.rs` and `text.rs`. Everything else in `src/` is proved.
