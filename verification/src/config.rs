//! Persisted device settings.

use vstd::prelude::*;

use crate::board::CHANNELS;
use crate::text;

verus! {

#[derive(Debug, Clone, Copy, PartialEq, Eq, Structural)]
pub enum Mode {
    /// HA drives the relays while online; the stored schedule drives them while offline.
    Auto,
    /// HA only. The schedule is never applied, even offline.
    Manual,
    /// Everything off; commands are ignored.
    Off,
}

impl Default for Mode {
    fn default() -> (r: Self)
        ensures
            r == Mode::Auto,
    {
        Mode::Auto
    }
}

impl Mode {
    pub const ALL: [Mode; 3] = [Mode::Auto, Mode::Manual, Mode::Off];

    /// The stored name of a mode.
    pub open spec fn name(self) -> Seq<char> {
        match self {
            Mode::Auto => "auto"@,
            Mode::Manual => "manual"@,
            Mode::Off => "off"@,
        }
    }

    /// `s` names this mode, up to ASCII case and surrounding white space.
    pub open spec fn named_by(self, s: Seq<char>) -> bool {
        text::ascii_lower(text::trimmed(s)) == self.name()
    }

    pub fn as_str(self) -> (r: &'static str)
        ensures
            r@ == self.name(),
    {
        match self {
            Mode::Auto => "auto",
            Mode::Manual => "manual",
            Mode::Off => "off",
        }
    }

    pub fn parse(s: &str) -> (r: Option<Mode>)
        ensures
            match r {
                Some(m) => m.named_by(s@),
                None => forall|m: Mode| !m.named_by(s@),
            },
    {
        let t = text::trim(s);
        proof {
            lemma_names_are_lowercase();
        }
        if text::eq_ignore_ascii_case("auto", t.as_str()) {
            Some(Mode::Auto)
        } else if text::eq_ignore_ascii_case("manual", t.as_str()) {
            Some(Mode::Manual)
        } else if text::eq_ignore_ascii_case("off", t.as_str()) {
            Some(Mode::Off)
        } else {
            None
        }
    }
}

proof fn lemma_names_are_lowercase()
    ensures
        text::ascii_lower("auto"@) == "auto"@,
        text::ascii_lower("manual"@) == "manual"@,
        text::ascii_lower("off"@) == "off"@,
{
    reveal_strlit("auto");
    reveal_strlit("manual");
    reveal_strlit("off");
    assert(text::ascii_lower("auto"@) =~= "auto"@);
    assert(text::ascii_lower("manual"@) =~= "manual"@);
    assert(text::ascii_lower("off"@) =~= "off"@);
}

/// A mode's own name, and no other, parses back to it: no text names two modes, and the name
/// of a mode names that mode.
pub proof fn law_mode_names_round_trip(m: Mode, n: Mode, s: Seq<char>)
    ensures
        m.named_by(m.name()),
        m.named_by(s) && n.named_by(s) ==> m == n,
{
    lemma_names_are_lowercase();
    reveal_strlit("auto");
    reveal_strlit("manual");
    reveal_strlit("off");
    let t = m.name();
    assert(t.skip(0) =~= t);
    assert(text::trimmed(t) == t);
    assert("auto"@.len() == 4 && "manual"@.len() == 6 && "off"@.len() == 3);
}

#[derive(Debug, Clone, Copy, PartialEq, Eq)]
pub struct ChannelConfig {
    /// Maximum time a relay may stay on, in minutes. 0 disables the safeguard.
    pub max_on_min: u16,
    /// State to hold while offline with unknown time (cold boot, no network).
    pub safe_state: bool,
    /// Maximum total on-time per local day, in minutes. 0 disables the cap.
    pub max_daily_min: u16,
}

impl Default for ChannelConfig {
    fn default() -> (r: Self)
        ensures
            r == (ChannelConfig { max_on_min: 0, safe_state: false, max_daily_min: 0 }),
    {
        ChannelConfig { max_on_min: 0, safe_state: false, max_daily_min: 0 }
    }
}

#[derive(Debug, Clone, PartialEq, Eq)]
pub struct Config {
    pub mode: Mode,
    pub channels: [ChannelConfig; CHANNELS],
    /// Seconds without any message from HA before the link is considered down while the
    /// connection still stands. 0 disables the heartbeat check (connected == online).
    pub offline_grace_s: u32,
    /// Interlock: turning any relay on switches all other relays off first, whatever the
    /// source (HA, schedule, local). Useful for a pump feeding several valves or for loads
    /// that must never run together.
    pub exclusive: bool,
    /// Audible feedback (boot, portal, safeguard trips, reset, OTA) on the on-board buzzer.
    pub buzzer: bool,
    /// Local rain hold: the stored schedule is ignored until this Unix time (seconds). 0 = none.
    /// Only affects offline operation; Home Assistant keeps its own rain delay.
    pub rain_hold_until: u64,
}

/// What a [`Config`] holds, with the channels as a sequence.
pub struct ConfigModel {
    pub mode: Mode,
    pub channels: Seq<ChannelConfig>,
    pub offline_grace_s: u32,
    pub exclusive: bool,
    pub buzzer: bool,
    pub rain_hold_until: u64,
}

impl View for Config {
    type V = ConfigModel;

    open spec fn view(&self) -> ConfigModel {
        ConfigModel {
            mode: self.mode,
            channels: self.channels@,
            offline_grace_s: self.offline_grace_s,
            exclusive: self.exclusive,
            buzzer: self.buzzer,
            rain_hold_until: self.rain_hold_until,
        }
    }
}

/// The settings of a fresh device.
pub open spec fn default_config() -> ConfigModel {
    ConfigModel {
        mode: Mode::Auto,
        channels: Seq::new(
            CHANNELS as nat,
            |i: int| ChannelConfig { max_on_min: 0, safe_state: false, max_daily_min: 0 },
        ),
        offline_grace_s: 0,
        exclusive: false,
        buzzer: true,
        rain_hold_until: 0,
    }
}

impl Default for Config {
    fn default() -> (r: Self)
        ensures
            r@ == default_config(),
    {
        let r = Config {
            mode: Mode::Auto,
            channels: [ChannelConfig { max_on_min: 0, safe_state: false, max_daily_min: 0 };
            CHANNELS],
            offline_grace_s: 0,
            exclusive: false,
            buzzer: true,
            rain_hold_until: 0,
        };
        assert(r.channels@ =~= default_config().channels);
        r
    }
}

} // verus!
