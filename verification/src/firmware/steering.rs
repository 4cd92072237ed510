//! What the controller is told of what the main loop reacts to.

use vstd::prelude::*;

use crate::arbiter::Arbiter;
use crate::board::CHANNELS;
use crate::firmware::clock;
use crate::firmware::clock::Fields;
use crate::firmware::machine;
use crate::firmware::machine::{Machine, Moment, Signal};
use crate::history;
use crate::laws;
use crate::rules::Input;
use crate::schedule::{LocalTime, Schedule};

verus! {

// ----- ticks -----------------------------------------------------------------------------------------

proof fn lemma_one(a: Arbiter, x: Input)
    ensures
        history::run(a, seq![x]) == a.taken(x).after,
{
    reveal(history::next);
    reveal_with_fuel(history::run, 2);
    assert(seq![x].drop_last() =~= seq![]);
}

proof fn lemma_two(a: Arbiter, x: Input, y: Input)
    ensures
        history::run(a, seq![x, y]) == a.taken(x).after.taken(y).after,
{
    reveal(history::next);
    lemma_one(a, x);
    assert(seq![x, y].drop_last() =~= seq![x]);
}

proof fn lemma_three(a: Arbiter, x: Input, y: Input, z: Input)
    ensures
        history::run(a, seq![x, y, z]) == a.taken(x).after.taken(y).after.taken(z).after,
{
    reveal(history::next);
    lemma_two(a, x, y);
    assert(seq![x, y, z].drop_last() =~= seq![x, y]);
}

/// A tick tells the controller the time: what the clock reads, then, if the time has only now become
/// known, that it is known, and then the local time of that very moment.
pub proof fn law_a_tick_tells_the_local_time(m: Machine, at: Moment, empty: Schedule)
    requires
        m.wf(),
    ensures
        ({
            let after = m.reacts(Signal::Tick, at, empty).ctl;
            let clock = Input::SetEpoch { epoch: at.epoch() };
            let tick = Input::Tick { now: at.now, local: at.local() };
            match at.local() {
                Some(t) if !m.time_known => after == history::run(
                    m.ctl,
                    seq![clock, Input::TimeKnown { now: at.now, at: t }, tick],
                ),
                _ => after == history::run(m.ctl, seq![clock, tick]),
            }
        }),
{
    lemma_tick_keeps_its_step(m, at);
    reveal(Machine::tick_step);
    let clock = Input::SetEpoch { epoch: at.epoch() };
    let tick = Input::Tick { now: at.now, local: at.local() };
    lemma_two(m.ctl, clock, tick);
    if let Some(t) = at.local() {
        lemma_three(m.ctl, clock, Input::TimeKnown { now: at.now, at: t }, tick);
    }
}

/// Whatever else happens on a tick, the controller is left in the state that its step leads to.
proof fn lemma_tick_keeps_its_step(m: Machine, at: Moment)
    requires
        m.wf(),
    ensures
        m.ticked(at).ctl == m.tick_step(at).after,
        m.ticked(at).keys == m.keys,
{
    broadcast use machine::lemma_sets;

    reveal(Machine::ticked);
    let s = m.tick_step(at);
    let m0 = Machine {
        ticks: machine::one_more(m.ticks),
        time_known: m.time_known || clock::valid(at.secs),
        ctl: s.after,
        ..m
    };
    let m1 = m0.reports_health(at);
    assert(m1.keeps(m0)) by {
        reveal(Machine::reports_health);
    }
    let m2 = m1.confirms();
    assert(m2.keeps(m0)) by {
        reveal(Machine::confirms);
    }
    let m3 = m2.opens_portal(at);
    assert(m3.keeps(m0)) by {
        reveal(Machine::opens_portal);
    }
    let m4 = m3.closes_portal(at);
    assert(m4.keeps(m0)) by {
        reveal(Machine::closes_portal);
    }
    machine::lemma_applies_keeps(m4, s.actions);
}

/// Once the clock has been set, the local time of a moment has the hour, the minute and the weekday
/// that the system gives for it.
pub proof fn law_the_local_time_of_a_moment(at: Moment, f: Fields)
    requires
        at.fields == Some(f),
        f.in_range(),
        0 <= f.wday < 7,
    ensures
        at.local() is Some <==> at.secs >= 1_704_067_200,
        at.local() matches Some(t) ==> {
            &&& t.minute / 60 == f.hour
            &&& t.minute % 60 == f.min
            &&& clock::is_weekday(t.weekday, f.wday as int)
        },
        at.epoch() == (if at.secs >= 1_704_067_200 {
            Some(at.secs)
        } else {
            None
        }),
{
    clock::law_the_local_time_is_the_systems(at.secs, at.fields);
}

/// A tick on a new local day starts the daily counters afresh: afterwards they hold no more than the
/// time since on-time was last booked, and no relay is blocked but one that has used up its budget in
/// that time.
pub proof fn law_the_counters_start_afresh_at_midnight(
    m: Machine,
    at: Moment,
    empty: Schedule,
    t: LocalTime,
    ch: int,
)
    requires
        m.wf(),
        m.time_known,
        at.local() == Some(t),
        0 <= ch < CHANNELS,
        m.ctl.today is Some,
        m.ctl.today != Some(t.day),
    ensures
        ({
            let after = m.reacts(Signal::Tick, at, empty).ctl;
            let since = match m.ctl.last_account_ms {
                Some(l) if l <= at.now => at.now - l,
                _ => 0,
            };
            &&& after.today == Some(t.day)
            &&& after.on_today_ms[ch] == (if m.ctl.relays[ch] {
                since
            } else {
                0
            })
            &&& after.capped[ch] ==> m.ctl.relays[ch] && m.ctl.cfg.channels[ch].max_daily_min > 0
                && since >= m.ctl.cfg.channels[ch].max_daily_min * 60_000
        }),
{
    law_a_tick_tells_the_local_time(m, at, empty);
    let clock = Input::SetEpoch { epoch: at.epoch() };
    let tick = Input::Tick { now: at.now, local: at.local() };
    lemma_two(m.ctl, clock, tick);
    let a = m.ctl.taken(clock).after;
    laws::lemma_refresh_keeps(a, at.now, at.local());
}

} // verus!
