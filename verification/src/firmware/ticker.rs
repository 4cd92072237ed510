//! 1 s ticks for the main loop, the BOOT button, and how many API clients are let in.

use vstd::prelude::*;

verus! {

/// The button is sampled every so many milliseconds.
pub const SAMPLE: u32 = 100;

/// A long press opens or closes the setup access point.
pub const LONG_PRESS: u32 = 5_000;

/// A press held on resets the device.
pub const RESET_PRESS: u32 = 15_000;

pub const MAX_CLIENTS: usize = 3;

/// Whether one more API client is let in.
pub fn admits(active: usize) -> (r: bool)
    ensures
        r == (active < MAX_CLIENTS),
{
    active < MAX_CLIENTS
}

/// What a sample gives rise to.
#[derive(Debug, Clone, Copy, PartialEq, Eq, Structural)]
pub struct Signals {
    pub long_press: bool,
    pub factory_reset: bool,
    pub tick: bool,
}

/// Button held 5 s -> long press (setup access point), kept held to 15 s -> factory reset. Each
/// fires once per press. Every tenth sample is a tick.
#[derive(Debug, Clone, Copy, PartialEq, Eq, Structural)]
pub struct Ticker {
    pub held_ms: u32,
    pub fired_long: bool,
    pub fired_reset: bool,
    /// Samples since the last tick.
    pub samples: u8,
}

impl Ticker {
    /// The state after a sample.
    pub open spec fn sampled(self, pressed: bool) -> Ticker {
        let held_ms = if self.held_ms > u32::MAX - SAMPLE {
            u32::MAX
        } else {
            (self.held_ms + SAMPLE) as u32
        };
        let samples = if self.samples >= 9 {
            0
        } else {
            (self.samples + 1) as u8
        };
        if pressed {
            Ticker {
                held_ms,
                fired_long: self.fired_long || held_ms >= LONG_PRESS,
                fired_reset: self.fired_reset || held_ms >= RESET_PRESS,
                samples,
            }
        } else {
            Ticker { held_ms: 0, fired_long: false, fired_reset: false, samples }
        }
    }

    /// What a sample gives rise to.
    pub open spec fn signals(self, pressed: bool) -> Signals {
        let next = self.sampled(pressed);
        Signals {
            long_press: next.fired_long && !self.fired_long,
            factory_reset: next.fired_reset && !self.fired_reset,
            tick: next.samples == 0,
        }
    }

    pub fn new() -> (r: Ticker)
        ensures
            r == (Ticker { held_ms: 0, fired_long: false, fired_reset: false, samples: 0 }),
    {
        Ticker { held_ms: 0, fired_long: false, fired_reset: false, samples: 0 }
    }

    /// The button has been sampled.
    pub fn sample(&mut self, pressed: bool) -> (r: Signals)
        ensures
            *final(self) == old(self).sampled(pressed),
            r == old(self).signals(pressed),
    {
        let mut s = Signals { long_press: false, factory_reset: false, tick: false };
        if pressed {
            self.held_ms = self.held_ms.saturating_add(SAMPLE);
            if self.held_ms >= LONG_PRESS && !self.fired_long {
                self.fired_long = true;
                s.long_press = true;
            }
            if self.held_ms >= RESET_PRESS && !self.fired_reset {
                self.fired_reset = true;
                s.factory_reset = true;
            }
        } else {
            self.held_ms = 0;
            self.fired_long = false;
            self.fired_reset = false;
        }
        if self.samples >= 9 {
            self.samples = 0;
            s.tick = true;
        } else {
            self.samples = self.samples + 1;
        }
        s
    }
}

/// The state after the button has been held for `n` samples.
pub open spec fn held(t: Ticker, n: nat) -> Ticker
    decreases n,
{
    if n == 0 {
        t
    } else {
        held(t, (n - 1) as nat).sampled(true)
    }
}

/// The state after `n` samples, pressed or not as `presses` says.
pub open spec fn after(t: Ticker, presses: Seq<bool>, n: nat) -> Ticker
    decreases n,
{
    if n == 0 {
        t
    } else {
        after(t, presses, (n - 1) as nat).sampled(presses[n - 1])
    }
}

proof fn lemma_held(t: Ticker, n: nat)
    requires
        t.held_ms == 0,
        !t.fired_long,
        !t.fired_reset,
    ensures
        ({
            let h = held(t, n);
            &&& h.held_ms == (if n * 100 > u32::MAX {
                u32::MAX as nat
            } else {
                n * 100
            })
            &&& h.fired_long == (n >= 50)
            &&& h.fired_reset == (n >= 150)
        }),
    decreases n,
{
    if n > 0 {
        lemma_held(t, (n - 1) as nat);
    }
}

/// A press held on fires a long press exactly once, after 5 s, and a factory reset exactly once,
/// after 15 s.
pub proof fn law_each_press_fires_once(t: Ticker, n: nat)
    requires
        t.held_ms == 0,
        !t.fired_long,
        !t.fired_reset,
    ensures
        held(t, n).signals(true).long_press == (n == 49),
        held(t, n).signals(true).factory_reset == (n == 149),
{
    lemma_held(t, n);
    lemma_held(t, n + 1);
    assert(held(t, n + 1) == held(t, n).sampled(true));
}

/// Letting go of the button makes the next press fire again, and fires nothing itself.
pub proof fn law_release_rearms(t: Ticker)
    ensures
        t.sampled(false).held_ms == 0,
        !t.sampled(false).fired_long,
        !t.sampled(false).fired_reset,
        !t.signals(false).long_press,
        !t.signals(false).factory_reset,
{
}

/// Every tenth sample is a tick, whatever the button does.
pub proof fn law_every_tenth_sample_ticks(t: Ticker, presses: Seq<bool>, n: nat)
    requires
        t.samples == 0,
        n < presses.len(),
    ensures
        after(t, presses, n).signals(presses[n as int]).tick == (n % 10 == 9),
{
    lemma_samples(t, presses, n);
}

proof fn lemma_samples(t: Ticker, presses: Seq<bool>, n: nat)
    requires
        t.samples == 0,
    ensures
        after(t, presses, n).samples == n % 10,
    decreases n,
{
    if n > 0 {
        lemma_samples(t, presses, (n - 1) as nat);
    }
}

} // verus!
