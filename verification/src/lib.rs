//! Verified logic of a 6-channel relay controller for Home Assistant.
//!
//! - The relay controller: [`controller`] decides who drives the relays, with the [`schedule`]
//!   that takes over offline and the [`safeguard`] against relays left on. [`arbiter`] is the
//!   same as a mathematical state machine; [`rules`], [`laws`], [`reach`] and [`history`] state what
//!   holds of it whatever happens.
//! - [`api`]: the device side of the ESPHome native API, from frames and encryption up to sessions.
//! - [`firmware`]: what the firmware on the board decides, with [`firmware::main_loop`] at its
//!   centre.
//!
//! Nothing in here touches pins, radio, sockets, storage or the clock: the application feeds in
//! what happens, and does what comes back.

pub mod api;
pub mod arbiter;
pub mod board;
pub mod channel_map;
pub mod config;
pub mod controller;
pub mod firmware;
pub mod history;
pub mod laws;
pub mod reach;
pub mod rules;
pub mod safeguard;
pub mod schedule;
pub mod text;

pub use arbiter::{Action, Link};
pub use board::CHANNELS;
pub use config::{ChannelConfig, Config, Mode};
pub use controller::{Controller, Usage};
pub use schedule::{Block, DayMask, LocalTime, Schedule, ScheduleState, Weekday};
