//! What holds of the arbiter whatever happens to it.
//!
//! Every input that a [`crate::controller::Controller`] takes is an [`Input`] here, and
//! [`Arbiter::taken`] is the step that its method makes. The laws below speak of all of them.

use vstd::prelude::*;

use crate::arbiter;
use crate::arbiter::{Action, Arbiter, Link, Step};
use crate::board::CHANNELS;
use crate::config::{ConfigModel, Mode};
use crate::schedule::{LocalTime, Schedule};

verus! {

/// Something that happens to the arbiter.
pub enum Input {
    HaConnected { now: u64 },
    HaDisconnected { now: u64, local: Option<LocalTime> },
    HaSeen { now: u64 },
    HaOffline { now: u64, local: Option<LocalTime> },
    TimeKnown { now: u64, at: LocalTime },
    HaCommand { ch: usize, on: bool, now: u64 },
    LocalCommand { ch: usize, on: bool, now: u64 },
    AllOff { now: u64 },
    SetSchedule { schedule: Schedule, now: u64, local: Option<LocalTime> },
    SetMaxOn { ch: usize, minutes: u16, now: u64 },
    SetMaxDaily { ch: usize, minutes: u16, now: u64 },
    SetSafeState { ch: usize, on: bool, now: u64 },
    SetExclusive { on: bool, now: u64 },
    SetBuzzer { on: bool },
    SetEpoch { epoch: Option<u64> },
    SetRainHold { hours: u32, now: u64, local: Option<LocalTime> },
    SetGrace { secs: u32, now: u64, local: Option<LocalTime> },
    SetMode { mode: Mode, now: u64, local: Option<LocalTime> },
    Tick { now: u64, local: Option<LocalTime> },
    Restore { day: u32, on_today_ms: Seq<u64>, total_ms: Seq<u64> },
}

/// At most one of the relays is on.
pub open spec fn at_most_one(relays: Seq<bool>) -> bool {
    forall|i: int, j: int|
        0 <= i < relays.len() && 0 <= j < relays.len() && #[trigger] relays[i]
            && #[trigger] relays[j] ==> i == j
}

/// The relays after an action has been applied to them.
pub open spec fn applied(relays: Seq<bool>, action: Action) -> Seq<bool> {
    match action {
        Action::SetRelay { ch, on } => relays.update(ch as int, on),
        _ => relays,
    }
}

/// The relays after the actions have been applied to them in order.
pub open spec fn replay(relays: Seq<bool>, actions: Seq<Action>) -> Seq<bool>
    decreases actions.len(),
{
    if actions.len() == 0 {
        relays
    } else {
        applied(replay(relays, actions.drop_last()), actions.last())
    }
}

/// While the actions are applied one by one, no two relays are ever on together.
pub open spec fn never_two(relays: Seq<bool>, actions: Seq<Action>) -> bool {
    forall|k: int|
        0 <= k <= actions.len() ==> at_most_one(#[trigger] replay(relays, actions.take(k)))
}

/// Applied one by one, every action that switches a relay changes it: none is redundant.
pub open spec fn each_flips(relays: Seq<bool>, actions: Seq<Action>) -> bool {
    forall|k: int|
        0 <= k < actions.len() ==> match #[trigger] actions[k] {
            Action::SetRelay { ch, on } => ch < CHANNELS && replay(relays, actions.take(k))[ch as int]
                != on,
            _ => true,
        }
}

impl Arbiter {
    /// What every reachable state satisfies.
    pub open spec fn obeys(self) -> bool {
        &&& self.shaped()
        // The safeguard times exactly the relays that are on, against the configured limits.
        &&& forall|i: int|
            0 <= i < CHANNELS ==> (#[trigger] self.timers[i] is Some <==> self.relays[i])
        &&& forall|i: int|
            0 <= i < CHANNELS ==> #[trigger] self.limits[i] == self.cfg.channels[i].max_on_min
                * 60_000
        // The interlock.
        &&& self.cfg.exclusive ==> at_most_one(self.relays)
        // A relay that used up its daily budget is off.
        &&& forall|i: int| 0 <= i < CHANNELS && #[trigger] self.capped[i] ==> !self.relays[i]
        // Mode `Off` means off.
        &&& self.cfg.mode == Mode::Off ==> forall|i: int|
            0 <= i < CHANNELS ==> !#[trigger] self.relays[i]
    }

    /// The step that an input makes.
    pub open spec fn taken(self, input: Input) -> Step {
        match input {
            Input::HaConnected { now } => self.connected(now).refresh(now, None),
            Input::HaDisconnected { now, local } => self.disconnected().refresh(now, local),
            Input::HaSeen { now } => self.seen(now).refresh(now, None),
            Input::HaOffline { now, local } => self.declared_offline().refresh(now, local),
            Input::TimeKnown { now, at } => self.with_time_known().refresh(now, Some(at)),
            Input::HaCommand { ch, on, now } => self.ha_command(ch, on, now),
            Input::LocalCommand { ch, on, now } => self.local_command(ch, on, now),
            Input::AllOff { now } => self.drop_to(arbiter::all_false()),
            Input::SetSchedule { schedule, now, local } => self.with_schedule(schedule).refresh(
                now,
                local,
            ),
            Input::SetMaxOn { ch, minutes, now } => self.with_max_on(ch, minutes).trip(now),
            Input::SetMaxDaily { ch, minutes, now } => self.with_daily_cap(ch, minutes).account(
                now,
                None,
            ),
            Input::SetSafeState { ch, on, now } => self.with_safe_state(ch, on).refresh(now, None),
            Input::SetExclusive { on, now } => self.with_exclusive(on),
            Input::SetBuzzer { on } => arbiter::stay(self.with_buzzer(on)),
            Input::SetEpoch { epoch } => arbiter::stay(self.with_epoch(epoch)),
            Input::SetRainHold { hours, now, local } => self.with_rain_hold(hours).refresh(
                now,
                local,
            ),
            Input::SetGrace { secs, now, local } => self.with_grace(secs).refresh(now, local),
            Input::SetMode { mode, now, local } => self.with_mode(mode, now, local),
            Input::Tick { now, local } => self.refresh(now, local),
            Input::Restore { day, on_today_ms, total_ms } => arbiter::stay(
                self.restored(day, on_today_ms, total_ms),
            ),
        }
    }

    /// Counters are restored at start-up, before any relay is on, and one per channel.
    pub open spec fn takes(self, input: Input) -> bool {
        input matches Input::Restore { day, on_today_ms, total_ms } ==> {
            &&& on_today_ms.len() == CHANNELS
            &&& total_ms.len() == CHANNELS
            &&& forall|i: int| 0 <= i < CHANNELS ==> !#[trigger] self.relays[i]
        }
    }
}

/// The actions of a step tell exactly which relays it switched.
pub open spec fn faithful(a: Arbiter, s: Step) -> bool {
    &&& replay(a.relays, s.actions) == s.after.relays
    &&& each_flips(a.relays, s.actions)
}

/// A step that keeps what every state satisfies, tells of every relay that it switches, and
/// with the interlock never has two relays on.
pub open spec fn sound(a: Arbiter, s: Step) -> bool {
    &&& a.shaped() ==> s.after.shaped() && faithful(a, s)
    &&& a.obeys() ==> {
        &&& s.after.obeys()
        &&& a.cfg.exclusive ==> never_two(a.relays, s.actions)
        &&& s.after.cfg.exclusive == a.cfg.exclusive
        &&& s.after.cfg.mode == a.cfg.mode
    }
}

// ----- replaying ---------------------------------------------------------------------------

/// Replaying two lists of actions in turn is replaying them together.
pub proof fn lemma_replay_concat(relays: Seq<bool>, s: Seq<Action>, t: Seq<Action>)
    ensures
        replay(relays, s + t) == replay(replay(relays, s), t),
    decreases t.len(),
{
    if t.len() == 0 {
        assert(s + t =~= s);
    } else {
        assert((s + t).drop_last() =~= s + t.drop_last());
        lemma_replay_concat(relays, s, t.drop_last());
    }
}

/// Two lists of actions that never have two relays on do not do so together.
pub proof fn lemma_never_two_concat(relays: Seq<bool>, s: Seq<Action>, t: Seq<Action>)
    requires
        never_two(relays, s),
        never_two(replay(relays, s), t),
    ensures
        never_two(relays, s + t),
{
    assert forall|k: int| 0 <= k <= (s + t).len() implies at_most_one(
        #[trigger] replay(relays, (s + t).take(k)),
    ) by {
        if k <= s.len() {
            assert((s + t).take(k) =~= s.take(k));
        } else {
            assert((s + t).take(k) =~= s + t.take(k - s.len()));
            lemma_replay_concat(relays, s, t.take(k - s.len()));
        }
    }
}

/// Two lists of actions whose switches all change something do so together.
pub proof fn lemma_each_flips_concat(relays: Seq<bool>, s: Seq<Action>, t: Seq<Action>)
    requires
        each_flips(relays, s),
        each_flips(replay(relays, s), t),
    ensures
        each_flips(relays, s + t),
{
    let u = s + t;
    assert forall|k: int| 0 <= k < u.len() implies match #[trigger] u[k] {
        Action::SetRelay { ch, on } => ch < CHANNELS && replay(relays, u.take(k))[ch as int] != on,
        _ => true,
    } by {
        if k < s.len() {
            assert(u[k] == s[k]);
            assert(u.take(k) =~= s.take(k));
        } else {
            assert(u[k] == t[k - s.len()]);
            assert(u.take(k) =~= s + t.take(k - s.len()));
            lemma_replay_concat(relays, s, t.take(k - s.len()));
        }
    }
}

proof fn lemma_each_flips_push(relays: Seq<bool>, s: Seq<Action>, x: Action)
    requires
        each_flips(relays, s),
        x matches Action::SetRelay { ch, on } ==> ch < CHANNELS && replay(relays, s)[ch as int]
            != on,
    ensures
        each_flips(relays, s.push(x)),
{
    let u = s.push(x);
    assert forall|k: int| 0 <= k < u.len() implies match #[trigger] u[k] {
        Action::SetRelay { ch, on } => ch < CHANNELS && replay(relays, u.take(k))[ch as int] != on,
        _ => true,
    } by {
        if k < s.len() {
            assert(u[k] == s[k]);
            assert(u.take(k) =~= s.take(k));
        } else {
            assert(u.take(k) =~= s);
        }
    }
}

/// No action switches a relay on.
spec fn only_off(actions: Seq<Action>) -> bool {
    forall|k: int|
        0 <= k < actions.len() ==> match #[trigger] actions[k] {
            Action::SetRelay { ch, on } => !on && ch < CHANNELS,
            _ => true,
        }
}

proof fn lemma_replay_only_off(relays: Seq<bool>, actions: Seq<Action>)
    requires
        only_off(actions),
        relays.len() == CHANNELS,
    ensures
        replay(relays, actions).len() == CHANNELS,
        forall|i: int| 0 <= i < CHANNELS && #[trigger] replay(relays, actions)[i] ==> relays[i],
    decreases actions.len(),
{
    if actions.len() > 0 {
        let rest = actions.drop_last();
        assert forall|k: int| 0 <= k < rest.len() implies match #[trigger] rest[k] {
            Action::SetRelay { ch, on } => !on && ch < CHANNELS,
            _ => true,
        } by {
            assert(rest[k] == actions[k]);
        }
        lemma_replay_only_off(relays, rest);
        assert(actions.last() == actions[actions.len() - 1]);
    }
}

proof fn lemma_only_off_never_two(relays: Seq<bool>, actions: Seq<Action>)
    requires
        only_off(actions),
        relays.len() == CHANNELS,
        at_most_one(relays),
    ensures
        never_two(relays, actions),
{
    assert forall|k: int| 0 <= k <= actions.len() implies at_most_one(
        #[trigger] replay(relays, actions.take(k)),
    ) by {
        let some = actions.take(k);
        assert(only_off(some)) by {
            assert forall|j: int| 0 <= j < some.len() implies match #[trigger] some[j] {
                Action::SetRelay { ch, on } => !on && ch < CHANNELS,
                _ => true,
            } by {
                assert(some[j] == actions[j]);
            }
        }
        lemma_replay_only_off(relays, some);
    }
}

proof fn lemma_only_off_push(s: Seq<Action>, x: Action)
    requires
        only_off(s),
        x matches Action::SetRelay { ch, on } ==> !on && ch < CHANNELS,
    ensures
        only_off(s.push(x)),
{
    assert forall|j: int| 0 <= j < s.push(x).len() implies match #[trigger] s.push(x)[j] {
        Action::SetRelay { ch, on } => !on && ch < CHANNELS,
        _ => true,
    } by {
        if j < s.len() {
            assert(s.push(x)[j] == s[j]);
        }
    }
}

proof fn lemma_only_off_concat(s: Seq<Action>, t: Seq<Action>)
    requires
        only_off(s),
        only_off(t),
    ensures
        only_off(s + t),
{
    assert forall|j: int| 0 <= j < (s + t).len() implies match #[trigger] (s + t)[j] {
        Action::SetRelay { ch, on } => !on && ch < CHANNELS,
        _ => true,
    } by {
        if j < s.len() {
            assert((s + t)[j] == s[j]);
        } else {
            assert((s + t)[j] == t[j - s.len()]);
        }
    }
}

proof fn lemma_replay_push(relays: Seq<bool>, s: Seq<Action>, x: Action)
    ensures
        replay(relays, s.push(x)) == applied(replay(relays, s), x),
{
    assert(s.push(x).drop_last() =~= s);
}

proof fn lemma_replay_turned_off(before: Seq<bool>, after: Seq<bool>, n: nat)
    requires
        before.len() == CHANNELS,
        after.len() == CHANNELS,
        n <= CHANNELS,
        forall|i: int| 0 <= i < CHANNELS && #[trigger] after[i] ==> before[i],
    ensures
        only_off(arbiter::turned_off(before, after, n)),
        each_flips(before, arbiter::turned_off(before, after, n)),
        replay(before, arbiter::turned_off(before, after, n)) == Seq::new(
            CHANNELS as nat,
            |i: int|
                if i < n {
                    after[i]
                } else {
                    before[i]
                },
        ),
    decreases n,
{
    let all = arbiter::turned_off(before, after, n);
    if n > 0 {
        let rest = arbiter::turned_off(before, after, (n - 1) as nat);
        lemma_replay_turned_off(before, after, (n - 1) as nat);
        if before[n - 1] && !after[n - 1] {
            let x = Action::SetRelay { ch: (n - 1) as usize, on: false };
            lemma_replay_push(before, rest, x);
            lemma_only_off_push(rest, x);
            lemma_each_flips_push(before, rest, x);
        }
    }
    assert(replay(before, all) =~= Seq::new(
        CHANNELS as nat,
        |i: int|
            if i < n {
                after[i]
            } else {
                before[i]
            },
    ));
}

// ----- the steps that all inputs are made of -----------------------------------------------

proof fn lemma_sound_and(a: Arbiter, s: Step, t: Step)
    requires
        sound(a, s),
        sound(s.after, t),
    ensures
        sound(a, s.and(t)),
{
    if a.shaped() {
        lemma_replay_concat(a.relays, s.actions, t.actions);
        lemma_each_flips_concat(a.relays, s.actions, t.actions);
    }
    if a.obeys() && a.cfg.exclusive {
        lemma_never_two_concat(a.relays, s.actions, t.actions);
    }
}

/// A step that switches nothing and leaves alone what the rules speak of.
proof fn lemma_sound_quiet(a: Arbiter, s: Step)
    requires
        s.after.relays == a.relays,
        a.shaped() ==> s.after.shaped(),
        a.obeys() ==> s.after.obeys(),
        s.after.cfg.exclusive == a.cfg.exclusive,
        s.after.cfg.mode == a.cfg.mode,
        forall|k: int| 0 <= k < s.actions.len() ==> !(#[trigger] s.actions[k] is SetRelay),
    ensures
        sound(a, s),
{
    lemma_replay_quiet(a.relays, s.actions);
    if a.obeys() && a.cfg.exclusive {
        assert(only_off(s.actions));
        lemma_only_off_never_two(a.relays, s.actions);
    }
}

proof fn lemma_replay_quiet(relays: Seq<bool>, actions: Seq<Action>)
    requires
        forall|k: int| 0 <= k < actions.len() ==> !(#[trigger] actions[k] is SetRelay),
    ensures
        replay(relays, actions) == relays,
        each_flips(relays, actions),
    decreases actions.len(),
{
    if actions.len() > 0 {
        let rest = actions.drop_last();
        assert forall|k: int| 0 <= k < rest.len() implies !(#[trigger] rest[k] is SetRelay) by {
            assert(rest[k] == actions[k]);
        }
        lemma_replay_quiet(relays, rest);
        assert(!(actions[actions.len() - 1] is SetRelay));
    }
}

proof fn lemma_sound_switch(a: Arbiter, ch: int, on: bool, now: u64, restart: bool)
    requires
        0 <= ch < CHANNELS,
        on ==> a.cfg.mode != Mode::Off,
    ensures
        sound(a, a.switch(ch, on, now, restart)),
{
    reveal(Arbiter::switch);
    if a.shaped() {
        let s = a.switch(ch, on, now, restart);
        if on && a.capped[ch] {
            lemma_sound_quiet(a, s);
        } else {
            let quiet = if on && a.cfg.exclusive {
                a.interlocked(ch)
            } else {
                a.relays
            };
            let first = arbiter::turned_off(a.relays, quiet, CHANNELS as nat);
            lemma_replay_turned_off(a.relays, quiet, CHANNELS as nat);
            assert(replay(a.relays, first) =~= quiet);
            if a.obeys() && a.cfg.exclusive {
                lemma_only_off_never_two(a.relays, first);
            }
            if a.relays[ch] != on {
                let x = Action::SetRelay { ch: ch as usize, on };
                lemma_replay_push(a.relays, first, x);
                lemma_each_flips_push(a.relays, first, x);
                if a.obeys() && a.cfg.exclusive {
                    let all = first.push(x);
                    assert forall|k: int| 0 <= k <= all.len() implies at_most_one(
                        #[trigger] replay(a.relays, all.take(k)),
                    ) by {
                        if k <= first.len() {
                            assert(all.take(k) =~= first.take(k));
                        } else {
                            assert(all.take(k) =~= all);
                        }
                    }
                }
            }
        }
    }
}

proof fn lemma_sound_roll(a: Arbiter, local: Option<LocalTime>)
    ensures
        sound(a, a.roll(local)),
{
    lemma_zero_usage_quiet(a, CHANNELS as nat);
    lemma_sound_quiet(a, a.roll(local));
}

proof fn lemma_zero_usage_quiet(a: Arbiter, n: nat)
    ensures
        forall|k: int| 0 <= k < a.zero_usage(n).len() ==> #[trigger] a.zero_usage(n)[k] is DailyUsage,
    decreases n,
{
    if n > 0 {
        lemma_zero_usage_quiet(a, (n - 1) as nat);
    }
}

proof fn lemma_book_reports(a: Arbiter, now: u64, n: nat)
    requires
        a.shaped(),
        n <= CHANNELS,
    ensures
        only_off(a.book_reports(now, n)),
        each_flips(a.relays, a.book_reports(now, n)),
        replay(a.relays, a.book_reports(now, n)) == a.book_below(now, n).after.relays,
    decreases n,
{
    let all = a.book_reports(now, n);
    if n == 0 {
        assert(a.book_below(now, 0).after.relays =~= a.relays);
    } else {
        let m = (n - 1) as nat;
        let rest = a.book_reports(now, m);
        lemma_book_reports(a, now, m);
        let part = a.book_report(now, n - 1);
        lemma_only_off_concat(rest, part);
        lemma_replay_concat(a.relays, rest, part);
        let r0 = replay(a.relays, rest);
        let usage = if a.reaches_cap(now, n - 1) {
            part.drop_last().drop_last()
        } else {
            part
        };
        assert(forall|k: int| 0 <= k < usage.len() ==> !(#[trigger] usage[k] is SetRelay));
        lemma_replay_quiet(r0, usage);
        assert(r0[n - 1] == a.relays[n - 1]);
        if a.reaches_cap(now, n - 1) {
            let x = Action::SetRelay { ch: (n - 1) as usize, on: false };
            let y = Action::DailyCapReached { ch: (n - 1) as usize };
            assert(part =~= usage.push(x).push(y));
            lemma_replay_push(r0, usage, x);
            lemma_replay_push(r0, usage.push(x), y);
            lemma_each_flips_push(r0, usage, x);
            lemma_each_flips_push(r0, usage.push(x), y);
        }
        lemma_each_flips_concat(a.relays, rest, part);
        assert(replay(a.relays, all) =~= a.book_below(now, n).after.relays);
    }
}

pub proof fn lemma_sound_account(a: Arbiter, now: u64, local: Option<LocalTime>)
    ensures
        sound(a, a.account(now, local)),
{
    lemma_sound_roll(a, local);
    let b = a.roll(local).after;
    lemma_sound_book(b, now);
    lemma_sound_and(a, a.roll(local), b.book(now));
}

proof fn lemma_sound_book(a: Arbiter, now: u64)
    ensures
        sound(a, a.book(now)),
{
    if a.shaped() {
        lemma_book_reports(a, now, CHANNELS as nat);
        if a.obeys() && a.cfg.exclusive {
            lemma_only_off_never_two(a.relays, a.book(now).actions);
        }
    }
}

proof fn lemma_trip_reports(a: Arbiter, now: u64, n: nat)
    requires
        a.shaped(),
        n <= CHANNELS,
    ensures
        only_off(a.trip_reports(now, n)),
        each_flips(a.relays, a.trip_reports(now, n)),
        replay(a.relays, a.trip_reports(now, n)) == a.trip_below(now, n).after.relays,
    decreases n,
{
    let all = a.trip_reports(now, n);
    if n > 0 {
        let m = (n - 1) as nat;
        let rest = a.trip_reports(now, m);
        lemma_trip_reports(a, now, m);
        if a.overdue(now, n - 1) {
            let x = Action::SetRelay { ch: (n - 1) as usize, on: false };
            let y = Action::SafeguardTripped { ch: (n - 1) as usize };
            if a.relays[n - 1] {
                lemma_only_off_push(rest, x);
                lemma_only_off_push(rest.push(x), y);
                lemma_replay_push(a.relays, rest, x);
                lemma_replay_push(a.relays, rest.push(x), y);
                assert(replay(a.relays, rest)[n - 1]);
                lemma_each_flips_push(a.relays, rest, x);
                lemma_each_flips_push(a.relays, rest.push(x), y);
            } else {
                lemma_only_off_push(rest, y);
                lemma_replay_push(a.relays, rest, y);
                lemma_each_flips_push(a.relays, rest, y);
            }
        }
    }
    assert(replay(a.relays, all) =~= a.trip_below(now, n).after.relays);
}

proof fn lemma_sound_trip(a: Arbiter, now: u64)
    ensures
        sound(a, a.trip(now)),
{
    if a.shaped() {
        lemma_trip_reports(a, now, CHANNELS as nat);
        if a.obeys() && a.cfg.exclusive {
            lemma_only_off_never_two(a.relays, a.trip(now).actions);
        }
    }
}

proof fn lemma_sound_follow(
    a: Arbiter,
    wanted: Seq<bool>,
    apply: bool,
    snap: bool,
    now: u64,
    n: nat,
)
    requires
        n <= CHANNELS,
        apply ==> a.cfg.mode != Mode::Off,
    ensures
        sound(a, a.follow(wanted, apply, snap, now, n)),
        a.follow(wanted, apply, snap, now, n).after.cfg == a.cfg,
    decreases n,
{
    if n == 0 {
        lemma_sound_quiet(a, arbiter::stay(a));
    } else {
        let m = (n - 1) as nat;
        lemma_sound_follow(a, wanted, apply, snap, now, m);
        let before = a.follow(wanted, apply, snap, now, m);
        let b = before.after;
        let ch = n - 1;
        let want = wanted[ch];
        let edge = b.sched_prev[ch] != Some(want);
        let noted = if edge {
            Step {
                after: Arbiter { sched_prev: b.sched_prev.update(ch, Some(want)), ..b },
                actions: seq![Action::ScheduleWants { ch: ch as usize, on: want }],
            }
        } else {
            arbiter::stay(b)
        };
        lemma_sound_quiet(b, noted);
        if apply && (edge || snap) {
            let sw = noted.after.switch(ch, want, now, false);
            lemma_sound_switch(noted.after, ch, want, now, false);
            arbiter::lemma_switch_frame(noted.after, ch, want, now, false);
            lemma_sound_and(b, noted, sw);
        }
        lemma_sound_and(a, before, b.follow_one(ch, want, apply, snap, now));
    }
}

proof fn lemma_sound_hold_safe(a: Arbiter, now: u64, n: nat)
    requires
        n <= CHANNELS,
        a.cfg.mode != Mode::Off,
    ensures
        sound(a, a.hold_safe(now, n)),
        a.hold_safe(now, n).after.cfg == a.cfg,
    decreases n,
{
    if n == 0 {
        lemma_sound_quiet(a, arbiter::stay(a));
    } else {
        let m = (n - 1) as nat;
        lemma_sound_hold_safe(a, now, m);
        let before = a.hold_safe(now, m);
        let on = a.cfg.channels[n - 1].safe_state;
        lemma_sound_switch(before.after, n - 1, on, now, false);
        arbiter::lemma_switch_frame(before.after, n - 1, on, now, false);
        lemma_sound_and(a, before, before.after.switch(n - 1, on, now, false));
    }
}

proof fn lemma_sound_drive(a: Arbiter, now: u64, local: Option<LocalTime>, changed: bool)
    requires
        a.cfg.mode != Mode::Off,
    ensures
        sound(a, a.drive(now, local, changed)),
{
    let ended = a.end_hold();
    let b = ended.after;
    lemma_sound_quiet(a, ended);
    let followed = if local is Some {
        let wanted = Seq::new(CHANNELS as nat, |ch: int| b.wanted(ch, local->0));
        let apply = b.link == Some(Link::OfflineSchedule) && b.cfg.mode == Mode::Auto;
        lemma_sound_follow(b, wanted, apply, changed, now, CHANNELS as nat);
        let f = b.follow(wanted, apply, changed, now, CHANNELS as nat);
        lemma_sound_and(a, ended, f);
        ended.and(f)
    } else {
        let p = arbiter::stay(b.postpone(changed));
        lemma_sound_quiet(b, p);
        lemma_sound_and(a, ended, p);
        ended.and(p)
    };
    if b.link == Some(Link::OfflineUnknownTime) && changed {
        lemma_sound_hold_safe(followed.after, now, CHANNELS as nat);
        lemma_sound_and(a, followed, followed.after.hold_safe(now, CHANNELS as nat));
    }
}

pub proof fn lemma_sound_refresh(a: Arbiter, now: u64, local: Option<LocalTime>)
    ensures
        sound(a, a.refresh(now, local)),
{
    reveal(Arbiter::refresh);
    let booked = a.account(now, local);
    lemma_sound_account(a, now, local);
    let relinked = booked.after.relink(now);
    lemma_sound_quiet(booked.after, relinked);
    lemma_sound_and(a, booked, relinked);
    let linked = booked.and(relinked);
    let changed = a.link != Some(booked.after.link_at(now));
    let driven = if a.cfg.mode == Mode::Off {
        linked
    } else {
        lemma_sound_drive(linked.after, now, local, changed);
        lemma_sound_and(a, linked, linked.after.drive(now, local, changed));
        linked.and(linked.after.drive(now, local, changed))
    };
    lemma_sound_trip(driven.after, now);
    lemma_sound_and(a, driven, driven.after.trip(now));
}

// ----- laws ----------------------------------------------------------------------------------

/// A device that has just started satisfies all the rules.
pub proof fn law_start_obeys(cfg: ConfigModel, schedule: Schedule)
    requires
        cfg.channels.len() == CHANNELS,
    ensures
        arbiter::started(cfg, schedule).obeys(),
{
}

/// Whatever happens, the rules go on to hold.
pub proof fn law_inputs_keep_the_rules(a: Arbiter, input: Input)
    requires
        a.obeys(),
        a.takes(input),
    ensures
        a.taken(input).after.obeys(),
{
    lemma_input(a, input);
}

/// In any state, whatever happens, the actions that come out tell of every relay that was
/// switched, and nothing else: applied in order to the relays as they were, they give the relays
/// as they are, and every one that switches a relay finds it in the other position.
pub proof fn law_actions_tell_what_was_switched(a: Arbiter, input: Input)
    requires
        a.shaped(),
    ensures
        replay(a.relays, a.taken(input).actions) == a.taken(input).after.relays,
        each_flips(a.relays, a.taken(input).actions),
{
    lemma_input(a, input);
}

/// Break before make: with the interlock, no two relays are on together at any moment while the
/// actions are applied one by one, whatever happened. (Only switching the interlock itself on
/// may find several relays on.)
pub proof fn law_interlock_at_every_moment(a: Arbiter, input: Input)
    requires
        a.obeys(),
        a.takes(input),
        a.cfg.exclusive,
        !(input is SetExclusive),
    ensures
        never_two(a.relays, a.taken(input).actions),
{
    lemma_input(a, input);
}

/// A step that may also change the settings: the actions tell what it did to the relays, and the
/// rules that held before it hold after it.
spec fn told(a: Arbiter, s: Step) -> bool {
    &&& faithful(a, s)
    &&& a.obeys() ==> s.after.obeys()
    &&& a.obeys() && a.cfg.exclusive ==> never_two(a.relays, s.actions)
}

proof fn lemma_told(a: Arbiter, b: Arbiter, s: Step)
    requires
        b.shaped(),
        a.obeys() ==> b.obeys(),
        b.relays == a.relays,
        b.cfg.exclusive == a.cfg.exclusive,
        sound(b, s),
    ensures
        told(a, s),
{
}

proof fn lemma_input(a: Arbiter, input: Input)
    requires
        a.shaped(),
    ensures
        faithful(a, a.taken(input)),
        a.obeys() && a.takes(input) ==> a.taken(input).after.obeys(),
        a.obeys() && a.takes(input) && a.cfg.exclusive && !(input is SetExclusive) ==> never_two(
            a.relays,
            a.taken(input).actions,
        ),
{
    match input {
        Input::SetExclusive { on, now } => {
            lemma_exclusive(a, on);
        },
        Input::SetMode { mode, now, local } => {
            lemma_mode(a, mode, now, local);
        },
        Input::LocalCommand { ch, on, now } => {
            lemma_sound_local_command(a, ch, on, now);
        },
        Input::AllOff { now } => {
            lemma_sound_drop(a, arbiter::all_false());
        },
        Input::SetMaxOn { ch, minutes, now } => {
            let b = a.with_max_on(ch, minutes);
            lemma_sound_trip(b, now);
            lemma_told(a, b, b.trip(now));
        },
        Input::SetMaxDaily { ch, minutes, now } => {
            let b = a.with_daily_cap(ch, minutes);
            lemma_sound_account(b, now, None);
            lemma_told(a, b, b.account(now, None));
        },
        Input::Restore { day, on_today_ms, total_ms } => {
            lemma_replay_quiet(a.relays, seq![]);
            if a.obeys() && a.cfg.exclusive {
                lemma_only_off_never_two(a.relays, seq![]);
            }
        },
        _ => {
            lemma_refreshing_input(a, input);
        },
    }
}

proof fn lemma_refreshing_input(a: Arbiter, input: Input)
    requires
        a.shaped(),
        !(input is SetExclusive || input is SetMode || input is LocalCommand || input is AllOff
            || input is SetMaxOn || input is SetMaxDaily || input is Restore),
    ensures
        told(a, a.taken(input)),
{
    match input {
        Input::HaConnected { now } => {
            let b = a.connected(now);
            lemma_sound_refresh(b, now, None);
            lemma_told(a, b, b.refresh(now, None));
        },
        Input::HaDisconnected { now, local } => {
            let b = a.disconnected();
            lemma_sound_refresh(b, now, local);
            lemma_told(a, b, b.refresh(now, local));
        },
        Input::HaSeen { now } => {
            let b = a.seen(now);
            lemma_sound_refresh(b, now, None);
            lemma_told(a, b, b.refresh(now, None));
        },
        Input::HaOffline { now, local } => {
            let b = a.declared_offline();
            lemma_sound_refresh(b, now, local);
            lemma_told(a, b, b.refresh(now, local));
        },
        Input::TimeKnown { now, at } => {
            let b = a.with_time_known();
            lemma_sound_refresh(b, now, Some(at));
            lemma_told(a, b, b.refresh(now, Some(at)));
        },
        Input::HaCommand { ch, on, now } => {
            lemma_sound_ha_command(a, ch, on, now);
        },
        Input::SetSchedule { schedule, now, local } => {
            let b = a.with_schedule(schedule);
            lemma_sound_refresh(b, now, local);
            lemma_told(a, b, b.refresh(now, local));
        },
        Input::SetSafeState { ch, on, now } => {
            let b = a.with_safe_state(ch, on);
            lemma_sound_refresh(b, now, None);
            lemma_told(a, b, b.refresh(now, None));
        },
        Input::SetRainHold { hours, now, local } => {
            let b = a.with_rain_hold(hours);
            lemma_sound_refresh(b, now, local);
            lemma_told(a, b, b.refresh(now, local));
        },
        Input::SetGrace { secs, now, local } => {
            let b = a.with_grace(secs);
            lemma_sound_refresh(b, now, local);
            lemma_told(a, b, b.refresh(now, local));
        },
        Input::Tick { now, local } => {
            lemma_sound_refresh(a, now, local);
        },
        _ => {
            let b = a.taken(input).after;
            lemma_sound_quiet(b, arbiter::stay(b));
            lemma_told(a, b, a.taken(input));
        },
    }
}

proof fn lemma_sound_ha_command(a: Arbiter, ch: usize, on: bool, now: u64)
    ensures
        sound(a, a.ha_command(ch, on, now)),
{
    let s = a.seen(now).refresh(now, None);
    lemma_sound_refresh(a.seen(now), now, None);
    assert(sound(a, s));
    if !(ch >= CHANNELS || s.after.cfg.mode == Mode::Off || s.after.link_now() != Link::Online) {
        lemma_sound_switch(s.after, ch as int, on, now, true);
        lemma_sound_and(a, s, s.after.switch(ch as int, on, now, true));
    }
}

proof fn lemma_sound_local_command(a: Arbiter, ch: usize, on: bool, now: u64)
    ensures
        sound(a, a.local_command(ch, on, now)),
{
    if ch < CHANNELS && a.cfg.mode != Mode::Off {
        lemma_sound_switch(a, ch as int, on, now, false);
    } else {
        lemma_sound_quiet(a, arbiter::stay(a));
    }
}

proof fn lemma_sound_drop(a: Arbiter, after: Seq<bool>)
    requires
        after.len() == CHANNELS,
        forall|i: int| 0 <= i < CHANNELS && #[trigger] after[i] ==> a.relays[i],
    ensures
        sound(a, a.drop_to(after)),
{
    if a.shaped() {
        lemma_replay_turned_off(a.relays, after, CHANNELS as nat);
        assert(replay(a.relays, a.drop_to(after).actions) =~= after);
        if a.obeys() && a.cfg.exclusive {
            lemma_only_off_never_two(a.relays, a.drop_to(after).actions);
        }
    }
}

proof fn lemma_exclusive(a: Arbiter, on: bool)
    requires
        a.shaped(),
    ensures
        a.obeys() ==> a.with_exclusive(on).after.obeys(),
        faithful(a, a.with_exclusive(on)),
{
    if on {
        lemma_replay_turned_off(a.relays, a.lowest_only(), CHANNELS as nat);
        assert(replay(a.relays, a.with_exclusive(on).actions) =~= a.lowest_only());
    } else {
        lemma_replay_quiet(a.relays, seq![]);
    }
}

proof fn lemma_mode(a: Arbiter, mode: Mode, now: u64, local: Option<LocalTime>)
    requires
        a.shaped(),
    ensures
        a.obeys() ==> a.with_mode(mode, now, local).after.obeys(),
        faithful(a, a.with_mode(mode, now, local)),
        a.obeys() && a.cfg.exclusive ==> never_two(
            a.relays,
            a.with_mode(mode, now, local).actions,
        ),
{
    let b = a.mode_set(mode);
    let off = arbiter::all_false();
    let quiet = if mode == Mode::Off {
        b.drop_to(off)
    } else {
        arbiter::stay(b)
    };
    lemma_sound_refresh(quiet.after, now, local);
    if mode == Mode::Off {
        lemma_replay_turned_off(a.relays, off, CHANNELS as nat);
        assert(replay(a.relays, quiet.actions) =~= off);
    } else {
        lemma_replay_quiet(a.relays, quiet.actions);
    }
    if a.obeys() && a.cfg.exclusive {
        lemma_only_off_never_two(a.relays, quiet.actions);
    }
    let rest = quiet.after.refresh(now, local);
    lemma_replay_concat(a.relays, quiet.actions, rest.actions);
    lemma_each_flips_concat(a.relays, quiet.actions, rest.actions);
    if a.obeys() && a.cfg.exclusive {
        lemma_never_two_concat(a.relays, quiet.actions, rest.actions);
    }
}

} // verus!
