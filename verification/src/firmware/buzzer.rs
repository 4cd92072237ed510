//! The tones of the passive buzzer.

use vstd::prelude::*;

verus! {

#[derive(Debug, Clone, Copy, PartialEq, Eq, Structural)]
pub enum Tone {
    Boot,
    PortalOpen,
    PortalClose,
    Safeguard,
    FactoryReset,
    OtaDone,
    Error,
}

impl Tone {
    /// (frequency Hz, on ms, pause ms) steps.
    pub open spec fn steps(self) -> Seq<(u32, u64, u64)> {
        match self {
            Tone::Boot => seq![(1500, 60, 40), (2200, 80, 0)],
            Tone::PortalOpen => seq![(1200, 80, 60), (1600, 80, 60), (2000, 120, 0)],
            Tone::PortalClose => seq![(2000, 80, 60), (1600, 80, 60), (1200, 120, 0)],
            Tone::Safeguard => seq![(2500, 120, 100), (2500, 120, 100), (2500, 120, 0)],
            Tone::FactoryReset => seq![(900, 600, 0)],
            Tone::OtaDone => seq![(1800, 80, 60), (1800, 80, 0)],
            Tone::Error => seq![(600, 250, 0)],
        }
    }
}

/// (frequency Hz, on ms, pause ms) steps.
pub fn sequence(t: Tone) -> (r: Vec<(u32, u64, u64)>)
    ensures
        r@ == t.steps(),
{
    let r: Vec<(u32, u64, u64)> = match t {
        Tone::Boot => vec![(1500, 60, 40), (2200, 80, 0)],
        Tone::PortalOpen => vec![(1200, 80, 60), (1600, 80, 60), (2000, 120, 0)],
        Tone::PortalClose => vec![(2000, 80, 60), (1600, 80, 60), (1200, 120, 0)],
        Tone::Safeguard => vec![(2500, 120, 100), (2500, 120, 100), (2500, 120, 0)],
        Tone::FactoryReset => vec![(900, 600, 0)],
        Tone::OtaDone => vec![(1800, 80, 60), (1800, 80, 0)],
        Tone::Error => vec![(600, 250, 0)],
    };
    assert(r@ =~= t.steps());
    r
}

/// The buzzer: it is mute while the user has it turned off.
#[derive(Debug)]
pub struct Buzzer {
    enabled: bool,
}

impl Buzzer {
    pub closed spec fn on(&self) -> bool {
        self.enabled
    }

    pub fn new(enabled: bool) -> (r: Buzzer)
        ensures
            r.on() == enabled,
    {
        Buzzer { enabled }
    }

    /// The steps to play.
    pub fn play(&self, t: Tone) -> (r: Vec<(u32, u64, u64)>)
        ensures
            r@ == (if self.on() {
                t.steps()
            } else {
                seq![]
            }),
    {
        if self.enabled {
            sequence(t)
        } else {
            Vec::new()
        }
    }

    pub fn set_enabled(&mut self, on: bool)
        ensures
            final(self).on() == on,
    {
        self.enabled = on;
    }
}

/// Each tone is one of its own, and every one can be heard and ends: it has a step at least,
/// every step sounds between 600 and 2500 Hz, and the last has no pause.
pub proof fn law_tones_are_told_apart(t: Tone, u: Tone, i: int)
    ensures
        t.steps() == u.steps() ==> t == u,
        t.steps().len() > 0,
        t.steps().last().2 == 0,
        0 <= i < t.steps().len() ==> 600 <= t.steps()[i].0 <= 2_500 && t.steps()[i].1 > 0,
        0 <= i < t.steps().len() - 1 ==> t.steps()[i].2 > 0,
{
    let (a, b) = (t.steps(), u.steps());
    if a == b {
        assert(a.len() == b.len());
        assert(a[0] == b[0]);
        assert(a.last() == b.last());
    }
}

/// The portal's closing tone is its opening tone the other way round: the pitch falls where it
/// rose.
pub proof fn law_closing_sounds_like_opening_reversed(i: int)
    requires
        0 <= i < 3,
    ensures
        Tone::PortalOpen.steps().len() == 3,
        Tone::PortalClose.steps().len() == 3,
        Tone::PortalClose.steps()[i].0 == Tone::PortalOpen.steps()[2 - i].0,
        i < 2 ==> Tone::PortalOpen.steps()[i].0 < Tone::PortalOpen.steps()[i + 1].0,
{
}

} // verus!
