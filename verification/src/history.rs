//! What holds of the arbiter over a whole history of inputs, from one of them on.

use vstd::prelude::*;

use crate::arbiter;
use crate::arbiter::{Action, Arbiter, Link};
use crate::board::CHANNELS;
use crate::config::{ConfigModel, Mode};
use crate::laws;
use crate::laws::local_of;
use crate::rules;
use crate::rules::Input;
use crate::safeguard;
use crate::schedule::{LocalTime, Schedule};

verus! {

/// The state after an input.
#[verifier::opaque]
pub open spec fn next(a: Arbiter, input: Input) -> Arbiter {
    a.taken(input).after
}

/// The state after a list of inputs, in order.
pub open spec fn run(a: Arbiter, inputs: Seq<Input>) -> Arbiter
    decreases inputs.len(),
{
    if inputs.len() == 0 {
        a
    } else {
        next(run(a, inputs.drop_last()), inputs.last())
    }
}

/// Every input of the list is one that can happen when it does.
pub open spec fn possible(a: Arbiter, inputs: Seq<Input>) -> bool {
    forall|k: int|
        0 <= k < inputs.len() ==> run(a, inputs.take(k)).takes(#[trigger] inputs[k])
}

// ----- what an input does before everything is looked at again -------------------------------------

/// Everything is looked at again after this input.
pub open spec fn refreshing(input: Input) -> bool {
    match input {
        Input::LocalCommand { ch, on, now } => false,
        Input::AllOff { now } => false,
        Input::SetMaxOn { ch, minutes, now } => false,
        Input::SetMaxDaily { ch, minutes, now } => false,
        Input::SetExclusive { on, now } => false,
        Input::SetBuzzer { on } => false,
        Input::SetEpoch { epoch } => false,
        Input::Restore { day, on_today_ms, total_ms } => false,
        _ => true,
    }
}

/// When an input happens.
pub open spec fn now_of(input: Input) -> u64 {
    match input {
        Input::HaConnected { now } => now,
        Input::HaDisconnected { now, local } => now,
        Input::HaSeen { now } => now,
        Input::HaOffline { now, local } => now,
        Input::TimeKnown { now, at } => now,
        Input::HaCommand { ch, on, now } => now,
        Input::LocalCommand { ch, on, now } => now,
        Input::AllOff { now } => now,
        Input::SetSchedule { schedule, now, local } => now,
        Input::SetMaxOn { ch, minutes, now } => now,
        Input::SetMaxDaily { ch, minutes, now } => now,
        Input::SetSafeState { ch, on, now } => now,
        Input::SetExclusive { on, now } => now,
        Input::SetRainHold { hours, now, local } => now,
        Input::SetGrace { secs, now, local } => now,
        Input::SetMode { mode, now, local } => now,
        Input::Tick { now, local } => now,
        _ => 0,
    }
}

impl Arbiter {
    /// The state with what an input tells or sets taken down.
    pub open spec fn noting(self, input: Input) -> Arbiter {
        match input {
            Input::HaConnected { now } => self.connected(now),
            Input::HaDisconnected { now, local } => self.disconnected(),
            Input::HaSeen { now } => self.seen(now),
            Input::HaOffline { now, local } => self.declared_offline(),
            Input::TimeKnown { now, at } => self.with_time_known(),
            Input::HaCommand { ch, on, now } => self.seen(now),
            Input::SetSchedule { schedule, now, local } => self.with_schedule(schedule),
            Input::SetMaxOn { ch, minutes, now } => self.with_max_on(ch, minutes),
            Input::SetMaxDaily { ch, minutes, now } => self.with_daily_cap(ch, minutes),
            Input::SetSafeState { ch, on, now } => self.with_safe_state(ch, on),
            Input::SetExclusive { on, now } => Arbiter {
                cfg: ConfigModel { exclusive: on, ..self.cfg },
                ..self
            },
            Input::SetBuzzer { on } => self.with_buzzer(on),
            Input::SetEpoch { epoch } => self.with_epoch(epoch),
            Input::SetRainHold { hours, now, local } => self.with_rain_hold(hours),
            Input::SetGrace { secs, now, local } => self.with_grace(secs),
            Input::SetMode { mode, now, local } => if mode == Mode::Off {
                self.mode_set(mode).drop_to(arbiter::all_false()).after
            } else {
                self.mode_set(mode)
            },
            Input::Restore { day, on_today_ms, total_ms } => self.restored(
                day,
                on_today_ms,
                total_ms,
            ),
            _ => self,
        }
    }
}

/// An input that has everything looked at again is noted, and then that happens. A command of HA
/// may then switch its relay.
proof fn lemma_noted(a: Arbiter, input: Input)
    requires
        a.shaped(),
        refreshing(input),
        !(input is HaCommand),
    ensures
        a.taken(input).after == a.noting(input).refresh(now_of(input), local_of(input)).after,
        a.noting(input).shaped(),
{
}

/// What an input told or set stands, and the link is what follows from it.
spec fn stands(p: Arbiter, f: Arbiter, link: Option<Link>) -> bool {
    &&& f.shaped()
    &&& f.ha_connected == p.ha_connected
    &&& f.ha_declared_offline == p.ha_declared_offline
    &&& f.last_ha_seen_ms == p.last_ha_seen_ms
    &&& f.time_known == p.time_known
    &&& f.cfg.mode == p.cfg.mode
    &&& f.cfg.exclusive == p.cfg.exclusive
    &&& f.cfg.offline_grace_s == p.cfg.offline_grace_s
    &&& f.epoch == p.epoch
    &&& f.link == link
}

#[verifier::rlimit(40)]
proof fn lemma_stands_refreshing(a: Arbiter, input: Input)
    requires
        a.shaped(),
        refreshing(input),
    ensures
        stands(
            a.noting(input),
            a.taken(input).after,
            Some(a.noting(input).link_at(now_of(input))),
        ),
{
    let p = a.noting(input);
    laws::lemma_refresh_keeps(p, now_of(input), local_of(input));
    let r = p.refresh(now_of(input), local_of(input)).after;
    assert(stands(p, r, Some(p.link_at(now_of(input)))));
    if input is HaCommand {
        if input->HaCommand_ch < CHANNELS {
            arbiter::lemma_switch_frame(
                r,
                input->HaCommand_ch as int,
                input->HaCommand_on,
                input->HaCommand_now,
                true,
            );
        }
    } else {
        lemma_noted(a, input);
    }
}

proof fn lemma_stands_other(a: Arbiter, input: Input)
    requires
        a.shaped(),
        a.takes(input),
        !refreshing(input),
    ensures
        stands(a.noting(input), a.taken(input).after, a.link),
{
    if input is LocalCommand {
        if input->LocalCommand_ch < CHANNELS {
            arbiter::lemma_switch_frame(
                a,
                input->LocalCommand_ch as int,
                input->LocalCommand_on,
                input->LocalCommand_now,
                false,
            );
        }
    }
}

/// What an input tells or sets stands after it, and the link is what follows from it.
proof fn lemma_stands(a: Arbiter, input: Input)
    requires
        a.shaped(),
        a.takes(input),
    ensures
        stands(
            a.noting(input),
            next(a, input),
            if refreshing(input) {
                Some(a.noting(input).link_at(now_of(input)))
            } else {
                a.link
            },
        ),
{
    reveal(next);
    if refreshing(input) {
        lemma_stands_refreshing(a, input);
    } else {
        lemma_stands_other(a, input);
    }
}

proof fn lemma_run_shaped(a: Arbiter, inputs: Seq<Input>)
    requires
        a.shaped(),
        possible(a, inputs),
    ensures
        run(a, inputs).shaped(),
    decreases inputs.len(),
{
    if inputs.len() > 0 {
        lemma_possible_before(a, inputs);
        lemma_run_shaped(a, inputs.drop_last());
        lemma_stands(run(a, inputs.drop_last()), inputs.last());
    }
}

proof fn lemma_possible_before(a: Arbiter, inputs: Seq<Input>)
    requires
        possible(a, inputs),
        inputs.len() > 0,
    ensures
        possible(a, inputs.drop_last()),
        run(a, inputs.drop_last()).takes(inputs.last()),
{
    let rest = inputs.drop_last();
    assert forall|k: int| 0 <= k < rest.len() implies run(a, rest.take(k)).takes(
        #[trigger] rest[k],
    ) by {
        assert(rest.take(k) =~= inputs.take(k));
        assert(rest[k] == inputs[k]);
    }
    assert(inputs.take(inputs.len() - 1) =~= rest);
    assert(inputs[inputs.len() - 1] == inputs.last());
}

// ----- the rules ---------------------------------------------------------------------------------

proof fn lemma_rules_kept(a: Arbiter, input: Input)
    requires
        a.obeys(),
        a.takes(input),
    ensures
        next(a, input).obeys(),
{
    reveal(next);
    rules::law_inputs_keep_the_rules(a, input);
}

/// Whatever happens after a state that satisfies the rules, they go on to hold.
pub proof fn law_the_rules_hold_for_good(a: Arbiter, inputs: Seq<Input>)
    requires
        a.obeys(),
        possible(a, inputs),
    ensures
        run(a, inputs).obeys(),
    decreases inputs.len(),
{
    if inputs.len() > 0 {
        lemma_possible_before(a, inputs);
        law_the_rules_hold_for_good(a, inputs.drop_last());
        lemma_rules_kept(run(a, inputs.drop_last()), inputs.last());
    }
}

/// Switching the interlock on leaves the lowest relay that is on, and tells of the others in
/// ascending order; switching it off touches nothing. While it stays on, whatever happens, at most
/// one relay is on.
pub proof fn law_the_interlock_holds_for_good(a: Arbiter, now: u64, inputs: Seq<Input>)
    requires
        a.obeys(),
        possible(a.taken(Input::SetExclusive { on: true, now }).after, inputs),
    ensures
        ({
            let s = a.taken(Input::SetExclusive { on: true, now });
            let c = run(s.after, inputs);
            &&& s.after.cfg.exclusive
            &&& s.after.relays == a.lowest_only()
            &&& s.actions == arbiter::turned_off(a.relays, a.lowest_only(), CHANNELS as nat)
            &&& rules::at_most_one(s.after.relays)
            &&& c.cfg.exclusive ==> rules::at_most_one(c.relays)
        }),
        ({
            let s = a.taken(Input::SetExclusive { on: false, now });
            s.actions == Seq::<Action>::empty() && s.after.relays == a.relays
        }),
{
    let input = Input::SetExclusive { on: true, now };
    rules::law_inputs_keep_the_rules(a, input);
    law_the_rules_hold_for_good(a.taken(input).after, inputs);
}

/// Once the mode is `Off`, no relay is on, whatever happens, until the mode is set again.
pub proof fn law_off_means_off_for_good(a: Arbiter, inputs: Seq<Input>)
    requires
        a.obeys(),
        a.cfg.mode == Mode::Off,
        possible(a, inputs),
        forall|k: int| 0 <= k < inputs.len() ==> !(#[trigger] inputs[k] is SetMode),
    ensures
        run(a, inputs).cfg.mode == Mode::Off,
        forall|ch: int| 0 <= ch < CHANNELS ==> !#[trigger] run(a, inputs).relays[ch],
    decreases inputs.len(),
{
    if inputs.len() > 0 {
        let rest = inputs.drop_last();
        lemma_possible_before(a, inputs);
        assert forall|k: int| 0 <= k < rest.len() implies !(#[trigger] rest[k] is SetMode) by {
            assert(rest[k] == inputs[k]);
        }
        law_off_means_off_for_good(a, rest);
        assert(!(inputs[inputs.len() - 1] is SetMode));
        law_the_rules_hold_for_good(a, rest);
        lemma_mode_kept(run(a, rest), inputs.last());
        law_the_rules_hold_for_good(a, inputs);
    }
}

proof fn lemma_mode_kept(a: Arbiter, input: Input)
    requires
        a.shaped(),
        a.takes(input),
        !(input is SetMode),
    ensures
        next(a, input).cfg.mode == a.cfg.mode,
{
    lemma_stands(a, input);
}

// ----- who is heard of ---------------------------------------------------------------------------

/// What a history of inputs tells about HA and the clock.
pub struct Heard {
    /// Of connecting and disconnecting, connecting came last.
    pub connected: bool,
    /// HA declared itself offline, and was not heard of since.
    pub declared: bool,
    /// When HA was last heard of.
    pub seen: Option<u64>,
    /// The time became known.
    pub time: bool,
    /// The Unix time that was last told.
    pub epoch: Option<u64>,
}

/// What is known after one more input.
pub open spec fn hearing(h: Heard, input: Input) -> Heard {
    match input {
        Input::HaConnected { now } => Heard {
            connected: true,
            declared: false,
            seen: Some(now),
            ..h
        },
        Input::HaDisconnected { now, local } => Heard { connected: false, ..h },
        Input::HaSeen { now } => Heard { declared: false, seen: Some(now), ..h },
        Input::HaCommand { ch, on, now } => Heard { declared: false, seen: Some(now), ..h },
        Input::HaOffline { now, local } => Heard { declared: true, ..h },
        Input::TimeKnown { now, at } => Heard { time: true, ..h },
        Input::SetEpoch { epoch } => Heard { epoch, ..h },
        _ => h,
    }
}

/// What is known after a list of inputs since the start.
pub open spec fn heard(inputs: Seq<Input>) -> Heard
    decreases inputs.len(),
{
    if inputs.len() == 0 {
        Heard { connected: false, declared: false, seen: None, time: false, epoch: None }
    } else {
        hearing(heard(inputs.drop_last()), inputs.last())
    }
}

/// The state knows what the history tells.
spec fn knows(a: Arbiter, h: Heard) -> bool {
    &&& a.shaped()
    &&& a.ha_connected == h.connected
    &&& a.ha_declared_offline == h.declared
    &&& a.last_ha_seen_ms == h.seen
    &&& a.time_known == h.time
    &&& a.epoch == h.epoch
    &&& h.connected ==> h.seen is Some
}

#[verifier::rlimit(40)]
proof fn lemma_hearing(a: Arbiter, h: Heard, input: Input)
    requires
        knows(a, h),
        a.takes(input),
    ensures
        knows(next(a, input), hearing(h, input)),
{
    lemma_stands(a, input);
}

proof fn lemma_heard(cfg: ConfigModel, schedule: Schedule, inputs: Seq<Input>)
    requires
        cfg.channels.len() == CHANNELS,
        possible(arbiter::started(cfg, schedule), inputs),
    ensures
        knows(run(arbiter::started(cfg, schedule), inputs), heard(inputs)),
    decreases inputs.len(),
{
    let s = arbiter::started(cfg, schedule);
    if inputs.len() > 0 {
        lemma_possible_before(s, inputs);
        lemma_heard(cfg, schedule, inputs.drop_last());
        lemma_hearing(run(s, inputs.drop_last()), heard(inputs.drop_last()), inputs.last());
    }
}

proof fn lemma_link(a: Arbiter, h0: Heard, input: Input)
    requires
        knows(a, h0),
        a.takes(input),
        refreshing(input),
    ensures
        ({
            let h = hearing(h0, input);
            let f = next(a, input);
            let grace = f.cfg.offline_grace_s;
            &&& (f.link_now() == Link::Online) == (h.connected && !h.declared && (grace == 0
                || safeguard::elapsed(now_of(input), h.seen->0) < grace * 1000))
            &&& h.connected ==> h.seen is Some
            &&& f.link_now() != Link::Online ==> f.link_now() == (if h.time {
                Link::OfflineSchedule
            } else {
                Link::OfflineUnknownTime
            })
            &&& f.time_known == h.time
            &&& input matches Input::SetGrace { secs, now, local } ==> grace == secs
        }),
{
    lemma_stands(a, input);
    lemma_hearing(a, h0, input);
    let p = a.noting(input);
    let f = next(a, input);
    assert(p.link_at(now_of(input)) == f.link_at(now_of(input)));
}

/// The link follows from the history. Whenever everything is looked at again, it is online exactly
/// if HA is connected, has not declared itself offline since it was last heard of, and was heard of
/// within the grace time (0 = for ever). Otherwise it depends on whether the time became known.
/// The grace time that counts is the configured one, from when it is set.
pub proof fn law_the_link_follows_the_history(
    cfg: ConfigModel,
    schedule: Schedule,
    inputs: Seq<Input>,
    input: Input,
)
    requires
        cfg.channels.len() == CHANNELS,
        possible(arbiter::started(cfg, schedule), inputs.push(input)),
        refreshing(input),
    ensures
        ({
            let h = heard(inputs.push(input));
            let a = run(arbiter::started(cfg, schedule), inputs);
            let f = next(a, input);
            let grace = f.cfg.offline_grace_s;
            &&& (f.link_now() == Link::Online) == (h.connected && !h.declared && (grace == 0
                || safeguard::elapsed(now_of(input), h.seen->0) < grace * 1000))
            &&& h.connected ==> h.seen is Some
            &&& f.link_now() != Link::Online ==> f.link_now() == (if h.time {
                Link::OfflineSchedule
            } else {
                Link::OfflineUnknownTime
            })
            &&& f.time_known == h.time
            &&& input matches Input::SetGrace { secs, now, local } ==> grace == secs
        }),
{
    let s = arbiter::started(cfg, schedule);
    let all = inputs.push(input);
    assert(all.drop_last() =~= inputs);
    lemma_possible_before(s, all);
    lemma_heard(cfg, schedule, inputs);
    lemma_link(run(s, inputs), heard(inputs), input);
}

/// A message from HA proves that it is alive, but never connects it: after it the link is online
/// exactly if HA is connected, even if the grace time had run out or HA had declared itself
/// offline. It has nothing reported about the schedule.
pub proof fn law_a_message_proves_ha_alive(
    cfg: ConfigModel,
    schedule: Schedule,
    inputs: Seq<Input>,
    now: u64,
)
    requires
        cfg.channels.len() == CHANNELS,
        possible(arbiter::started(cfg, schedule), inputs),
    ensures
        ({
            let s = run(arbiter::started(cfg, schedule), inputs).taken(Input::HaSeen { now });
            &&& (s.after.link_now() == Link::Online) == heard(inputs).connected
            &&& forall|k: int|
                0 <= k < s.actions.len() ==> !(#[trigger] s.actions[k] is ScheduleWants)
        }),
{
    let a = run(arbiter::started(cfg, schedule), inputs);
    let input = Input::HaSeen { now };
    lemma_heard(cfg, schedule, inputs);
    lemma_stands_refreshing(a, input);
    let ok = |x: Action| !(x is ScheduleWants);
    lemma_refresh_all(a.seen(now), now, None, ok);
    let s = a.taken(input);
    assert forall|k: int| 0 <= k < s.actions.len() implies !(#[trigger] s.actions[k] is ScheduleWants) by {
        assert(ok(s.actions[k]));
    }
}

/// What a command of HA does, held against a mere message: nothing more, if there is no such
/// relay, the mode is `Off` or the link is not online. Otherwise the message is followed by
/// switching: with the interlock the other relays go off first, and then at most the relay itself
/// is switched. It is then as commanded, unless it was to go on and has used up its budget.
pub proof fn law_a_command_is_a_message_and_a_switch(a: Arbiter, ch: usize, on: bool, now: u64)
    requires
        a.shaped(),
    ensures
        ({
            let r = a.taken(Input::HaCommand { ch, on, now });
            let s = a.taken(Input::HaSeen { now });
            if ch >= CHANNELS || a.cfg.mode == Mode::Off || s.after.link_now() != Link::Online {
                r == s
            } else {
                exists|others: Seq<Action>, own: Seq<Action>|
                    {
                        &&& r.actions == s.actions + (others + own)
                        &&& #[trigger] only_others_off(others, ch)
                        &&& !(on && a.cfg.exclusive) ==> others.len() == 0
                        &&& #[trigger] at_most_switches(own, ch, on)
                        &&& r.after.relays[ch as int] == on || (on
                            && r.after.capped[ch as int])
                    }
            }
        }),
{
    let p = a.seen(now);
    laws::lemma_refresh_keeps(p, now, None);
    let s = a.taken(Input::HaSeen { now });
    let b = s.after;
    if !(ch >= CHANNELS || a.cfg.mode == Mode::Off || b.link_now() != Link::Online) {
        let c = ch as int;
        arbiter::lemma_switch_frame(b, c, on, now, true);
        reveal(Arbiter::switch);
        let r = a.taken(Input::HaCommand { ch, on, now });
        let quiet = if on && b.cfg.exclusive {
            b.interlocked(c)
        } else {
            b.relays
        };
        let first = arbiter::turned_off(b.relays, quiet, CHANNELS as nat);
        lemma_turned_off_others(b.relays, quiet, ch, CHANNELS as nat);
        if !(on && b.cfg.exclusive) {
            arbiter::lemma_turned_off_same(b.relays, quiet, CHANNELS as nat);
        }
        let none = Seq::<Action>::empty();
        if on && b.capped[c] {
            assert(only_others_off(none, ch));
            assert(at_most_switches(none, ch, on));
            assert(r.actions =~= s.actions + (none + none));
        } else if b.relays[c] == on {
            assert(at_most_switches(none, ch, on));
            assert(r.actions =~= s.actions + (first + none));
        } else {
            let own = seq![Action::SetRelay { ch, on }];
            assert(at_most_switches(own, ch, on));
            assert(r.actions =~= s.actions + (first + own));
        }
    }
}

/// Other relays than `ch` go off, and nothing else happens.
pub open spec fn only_others_off(actions: Seq<Action>, ch: usize) -> bool {
    forall|k: int|
        0 <= k < actions.len() ==> match #[trigger] actions[k] {
            Action::SetRelay { ch: c, on } => !on && c < CHANNELS && c != ch,
            _ => false,
        }
}

/// Nothing happens, or `ch` is switched.
pub open spec fn at_most_switches(actions: Seq<Action>, ch: usize, on: bool) -> bool {
    actions.len() == 0 || actions == seq![Action::SetRelay { ch, on }]
}

proof fn lemma_turned_off_others(before: Seq<bool>, after: Seq<bool>, ch: usize, n: nat)
    requires
        n <= CHANNELS,
        ch < CHANNELS,
        before[ch as int] == after[ch as int],
    ensures
        only_others_off(arbiter::turned_off(before, after, n), ch),
    decreases n,
{
    if n > 0 {
        lemma_turned_off_others(before, after, ch, (n - 1) as nat);
    }
}

// ----- which actions come out ----------------------------------------------------------------------

/// All the actions are of a kind.
spec fn all(actions: Seq<Action>, ok: spec_fn(Action) -> bool) -> bool {
    forall|k: int| 0 <= k < actions.len() ==> ok(#[trigger] actions[k])
}

/// Of the kind are at least the actions that neither switch a relay on nor tell what the schedule
/// wants.
spec fn wide(ok: spec_fn(Action) -> bool) -> bool {
    forall|x: Action|
        !(x is ScheduleWants) && !(x matches Action::SetRelay { ch, on } && on) ==> #[trigger] ok(x)
}

proof fn lemma_all_concat(s: Seq<Action>, t: Seq<Action>, ok: spec_fn(Action) -> bool)
    requires
        all(s, ok),
        all(t, ok),
    ensures
        all(s + t, ok),
{
    assert forall|k: int| 0 <= k < (s + t).len() implies ok(#[trigger] (s + t)[k]) by {
        if k < s.len() {
            assert((s + t)[k] == s[k]);
        } else {
            assert((s + t)[k] == t[k - s.len()]);
        }
    }
}

proof fn lemma_turned_off_all(
    before: Seq<bool>,
    after: Seq<bool>,
    n: nat,
    ok: spec_fn(Action) -> bool,
)
    requires
        wide(ok),
    ensures
        all(arbiter::turned_off(before, after, n), ok),
    decreases n,
{
    if n > 0 {
        lemma_turned_off_all(before, after, (n - 1) as nat, ok);
        assert(ok(Action::SetRelay { ch: (n - 1) as usize, on: false }));
    }
}

proof fn lemma_switch_all(
    a: Arbiter,
    ch: int,
    on: bool,
    now: u64,
    restart: bool,
    ok: spec_fn(Action) -> bool,
)
    requires
        0 <= ch < CHANNELS,
        wide(ok),
        on && !a.capped[ch] ==> ok(Action::SetRelay { ch: ch as usize, on: true }),
    ensures
        all(a.switch(ch, on, now, restart).actions, ok),
{
    reveal(Arbiter::switch);
    let quiet = if on && a.cfg.exclusive {
        a.interlocked(ch)
    } else {
        a.relays
    };
    lemma_turned_off_all(a.relays, quiet, CHANNELS as nat, ok);
    assert(!on ==> ok(Action::SetRelay { ch: ch as usize, on: false }));
}

proof fn lemma_zero_usage_all(a: Arbiter, n: nat, ok: spec_fn(Action) -> bool)
    requires
        wide(ok),
    ensures
        all(a.zero_usage(n), ok),
    decreases n,
{
    if n > 0 {
        lemma_zero_usage_all(a, (n - 1) as nat, ok);
        let x = Action::DailyUsage {
            ch: (n - 1) as usize,
            minutes: 0,
            total_minutes: arbiter::minutes(a.total_ms[n - 1]),
        };
        assert(ok(x));
    }
}

proof fn lemma_book_all(a: Arbiter, now: u64, n: nat, ok: spec_fn(Action) -> bool)
    requires
        wide(ok),
    ensures
        all(a.book_reports(now, n), ok),
    decreases n,
{
    if n > 0 {
        lemma_book_all(a, now, (n - 1) as nat, ok);
        let part = a.book_report(now, n - 1);
        assert forall|k: int| 0 <= k < part.len() implies ok(#[trigger] part[k]) by {}
        lemma_all_concat(a.book_reports(now, (n - 1) as nat), part, ok);
    }
}

proof fn lemma_account_all(
    a: Arbiter,
    now: u64,
    local: Option<LocalTime>,
    ok: spec_fn(Action) -> bool,
)
    requires
        wide(ok),
    ensures
        all(a.account(now, local).actions, ok),
{
    lemma_zero_usage_all(a, CHANNELS as nat, ok);
    assert(ok(Action::DayRolled));
    lemma_all_concat(seq![Action::DayRolled], a.zero_usage(CHANNELS as nat), ok);
    let b = a.roll(local).after;
    lemma_book_all(b, now, CHANNELS as nat, ok);
    lemma_all_concat(a.roll(local).actions, b.book(now).actions, ok);
}

proof fn lemma_trip_all(a: Arbiter, now: u64, n: nat, ok: spec_fn(Action) -> bool)
    requires
        wide(ok),
    ensures
        all(a.trip_reports(now, n), ok),
    decreases n,
{
    if n > 0 {
        lemma_trip_all(a, now, (n - 1) as nat, ok);
        assert(ok(Action::SetRelay { ch: (n - 1) as usize, on: false }));
        assert(ok(Action::SafeguardTripped { ch: (n - 1) as usize }));
    }
}

proof fn lemma_follow_all(
    a: Arbiter,
    wanted: Seq<bool>,
    apply: bool,
    snap: bool,
    now: u64,
    n: nat,
    ok: spec_fn(Action) -> bool,
)
    requires
        n <= CHANNELS,
        wide(ok),
        forall|i: int|
            0 <= i < CHANNELS && !a.capped[i] ==> #[trigger] ok(
                Action::SetRelay { ch: i as usize, on: true },
            ),
        forall|i: int|
            #![trigger wanted[i]]
            0 <= i < CHANNELS ==> ok(Action::ScheduleWants { ch: i as usize, on: wanted[i] }),
    ensures
        all(a.follow(wanted, apply, snap, now, n).actions, ok),
        a.follow(wanted, apply, snap, now, n).after.capped == a.capped,
    decreases n,
{
    if n > 0 {
        let m = (n - 1) as nat;
        lemma_follow_all(a, wanted, apply, snap, now, m, ok);
        let b = a.follow(wanted, apply, snap, now, m).after;
        let want = wanted[n - 1];
        let noted = Arbiter { sched_prev: b.sched_prev.update(n - 1, Some(want)), ..b };
        if !b.capped[n - 1] {
            assert(ok(Action::SetRelay { ch: (n - 1) as usize, on: true }));
        }
        lemma_switch_all(noted, n - 1, want, now, false, ok);
        lemma_switch_all(b, n - 1, want, now, false, ok);
        arbiter::lemma_switch_frame(noted, n - 1, want, now, false);
        arbiter::lemma_switch_frame(b, n - 1, want, now, false);
        let told = seq![Action::ScheduleWants { ch: (n - 1) as usize, on: want }];
        assert(all(told, ok));
        lemma_all_concat(told, noted.switch(n - 1, want, now, false).actions, ok);
        lemma_all_concat(seq![], b.switch(n - 1, want, now, false).actions, ok);
        lemma_all_concat(
            a.follow(wanted, apply, snap, now, m).actions,
            b.follow_one(n - 1, want, apply, snap, now).actions,
            ok,
        );
    }
}

proof fn lemma_hold_safe_all(a: Arbiter, now: u64, n: nat, ok: spec_fn(Action) -> bool)
    requires
        n <= CHANNELS,
        wide(ok),
        forall|i: int|
            0 <= i < CHANNELS && !a.capped[i] ==> #[trigger] ok(
                Action::SetRelay { ch: i as usize, on: true },
            ),
    ensures
        all(a.hold_safe(now, n).actions, ok),
        a.hold_safe(now, n).after.capped == a.capped,
    decreases n,
{
    if n > 0 {
        let m = (n - 1) as nat;
        lemma_hold_safe_all(a, now, m, ok);
        let b = a.hold_safe(now, m).after;
        let safe = a.cfg.channels[n - 1].safe_state;
        if !b.capped[n - 1] {
            assert(ok(Action::SetRelay { ch: (n - 1) as usize, on: true }));
        }
        lemma_switch_all(b, n - 1, safe, now, false, ok);
        arbiter::lemma_switch_frame(b, n - 1, safe, now, false);
        lemma_all_concat(
            a.hold_safe(now, m).actions,
            b.switch(n - 1, safe, now, false).actions,
            ok,
        );
    }
}

/// Of which kind all the actions of a refresh are: those that neither switch a relay on nor tell
/// what the schedule wants; what the schedule wants now; and switching on relays that have budget
/// left.
proof fn lemma_refresh_all(
    a: Arbiter,
    now: u64,
    local: Option<LocalTime>,
    ok: spec_fn(Action) -> bool,
)
    requires
        a.shaped(),
        wide(ok),
        forall|i: int|
            0 <= i < CHANNELS && !a.account(now, local).after.capped[i] ==> #[trigger] ok(
                Action::SetRelay { ch: i as usize, on: true },
            ),
        local is Some ==> forall|i: int|
            #![trigger a.refresh(now, local).after.wanted(i, local->0)]
            0 <= i < CHANNELS ==> ok(
                Action::ScheduleWants {
                    ch: i as usize,
                    on: a.refresh(now, local).after.wanted(i, local->0),
                },
            ),
    ensures
        all(a.refresh(now, local).actions, ok),
{
    let f = a.refresh(now, local).after;
    laws::lemma_refresh_keeps(a, now, local);
    reveal(Arbiter::refresh);
    let booked = a.account(now, local);
    lemma_account_all(a, now, local, ok);
    let relinked = booked.after.relink(now);
    assert(all(relinked.actions, ok)) by {
        assert(ok(Action::LinkChanged(booked.after.link_at(now))));
    }
    lemma_all_concat(booked.actions, relinked.actions, ok);
    let linked = booked.and(relinked);
    let l = linked.after;
    let changed = a.link != Some(booked.after.link_at(now));
    let driven = if a.cfg.mode == Mode::Off {
        linked
    } else {
        let ended = l.end_hold();
        let e = ended.after;
        assert(all(ended.actions, ok)) by {
            assert(ok(Action::RainHoldEnded));
        }
        let followed = if local is Some {
            let wanted = Seq::new(CHANNELS as nat, |ch: int| e.wanted(ch, local->0));
            let apply = e.link == Some(Link::OfflineSchedule) && e.cfg.mode == Mode::Auto;
            laws::lemma_hold_after(a, now, local);
            assert forall|i: int| #![trigger wanted[i]] 0 <= i < CHANNELS implies ok(
                Action::ScheduleWants { ch: i as usize, on: wanted[i] },
            ) by {
                assert(wanted[i] == f.wanted(i, local->0));
            }
            lemma_follow_all(e, wanted, apply, changed, now, CHANNELS as nat, ok);
            lemma_all_concat(
                ended.actions,
                e.follow(wanted, apply, changed, now, CHANNELS as nat).actions,
                ok,
            );
            ended.and(e.follow(wanted, apply, changed, now, CHANNELS as nat))
        } else {
            lemma_all_concat(ended.actions, seq![], ok);
            ended.and(arbiter::stay(e.postpone(changed)))
        };
        lemma_hold_safe_all(followed.after, now, CHANNELS as nat, ok);
        lemma_all_concat(
            followed.actions,
            followed.after.hold_safe(now, CHANNELS as nat).actions,
            ok,
        );
        let drive = l.drive(now, local, changed);
        lemma_all_concat(linked.actions, drive.actions, ok);
        linked.and(drive)
    };
    lemma_trip_all(driven.after, now, CHANNELS as nat, ok);
    lemma_all_concat(driven.actions, driven.after.trip(now).actions, ok);
}

/// Of which kind all the actions of an input are.
proof fn lemma_input_all(a: Arbiter, input: Input, ok: spec_fn(Action) -> bool)
    requires
        a.shaped(),
        a.takes(input),
        wide(ok),
        forall|i: int|
            0 <= i < CHANNELS && !a.taken(input).after.capped[i] ==> #[trigger] ok(
                Action::SetRelay { ch: i as usize, on: true },
            ),
        local_of(input) is Some ==> forall|i: int|
            #![trigger a.taken(input).after.wanted(i, local_of(input)->0)]
            0 <= i < CHANNELS ==> ok(
                Action::ScheduleWants {
                    ch: i as usize,
                    on: a.taken(input).after.wanted(i, local_of(input)->0),
                },
            ),
    ensures
        all(a.taken(input).actions, ok),
{
    let p = a.noting(input);
    if refreshing(input) {
        laws::lemma_refresh_keeps(p, now_of(input), local_of(input));
    }
    match input {
        Input::HaCommand { ch, on, now } => {
            let s = p.refresh(now, None);
            if ch < CHANNELS {
                arbiter::lemma_switch_frame(s.after, ch as int, on, now, true);
            }
            assert(a.taken(input).after.capped == s.after.capped);
            lemma_refresh_all(p, now, None, ok);
            if ch < CHANNELS {
                if !s.after.capped[ch as int] {
                    assert(ok(Action::SetRelay { ch: (ch as int) as usize, on: true }));
                }
                lemma_switch_all(s.after, ch as int, on, now, true, ok);
                lemma_all_concat(
                    s.actions,
                    s.after.switch(ch as int, on, now, true).actions,
                    ok,
                );
            }
        },
        Input::LocalCommand { ch, on, now } => {
            if ch < CHANNELS {
                arbiter::lemma_switch_frame(a, ch as int, on, now, false);
                if !a.capped[ch as int] {
                    assert(ok(Action::SetRelay { ch: (ch as int) as usize, on: true }));
                }
                lemma_switch_all(a, ch as int, on, now, false, ok);
            }
        },
        Input::AllOff { now } => {
            lemma_turned_off_all(a.relays, arbiter::all_false(), CHANNELS as nat, ok);
        },
        Input::SetExclusive { on, now } => {
            lemma_turned_off_all(a.relays, a.lowest_only(), CHANNELS as nat, ok);
        },
        Input::SetMaxOn { ch, minutes, now } => {
            lemma_trip_all(p, now, CHANNELS as nat, ok);
        },
        Input::SetMaxDaily { ch, minutes, now } => {
            lemma_account_all(p, now, None, ok);
        },
        Input::SetMode { mode, now, local } => {
            lemma_refresh_all(p, now, local, ok);
            let quiet = if mode == Mode::Off {
                a.mode_set(mode).drop_to(arbiter::all_false()).actions
            } else {
                seq![]
            };
            lemma_turned_off_all(a.relays, arbiter::all_false(), CHANNELS as nat, ok);
            lemma_all_concat(quiet, p.refresh(now, local).actions, ok);
        },
        _ => {
            if refreshing(input) {
                lemma_refresh_all(p, now_of(input), local_of(input), ok);
            }
        },
    }
}

/// While a rain hold stands after an input, the input did not report the schedule as wanting any
/// relay on.
pub proof fn law_a_rain_hold_silences_the_schedule(a: Arbiter, input: Input)
    requires
        a.shaped(),
        a.takes(input),
        a.taken(input).after.held(),
    ensures
        forall|k: int|
            0 <= k < a.taken(input).actions.len() ==> !(#[trigger] a.taken(input).actions[k] matches
            Action::ScheduleWants { ch, on } && on),
{
    let ok = |x: Action| !(x matches Action::ScheduleWants { ch, on } && on);
    lemma_input_all(a, input, ok);
    assert forall|k: int| 0 <= k < a.taken(input).actions.len() implies !(
    #[trigger] a.taken(input).actions[k] matches Action::ScheduleWants { ch, on } && on) by {
        assert(ok(a.taken(input).actions[k]));
    }
}

/// A rain hold that is set stands until the time that was last told reaches its end, and if no time
/// was ever told, or it was taken back, it stands.
pub proof fn law_a_rain_hold_lasts_until_its_end(
    cfg: ConfigModel,
    schedule: Schedule,
    inputs: Seq<Input>,
)
    requires
        cfg.channels.len() == CHANNELS,
        possible(arbiter::started(cfg, schedule), inputs),
    ensures
        ({
            let a = run(arbiter::started(cfg, schedule), inputs);
            a.held() == (a.cfg.rain_hold_until > 0 && match heard(inputs).epoch {
                Some(e) => e < a.cfg.rain_hold_until,
                None => true,
            })
        }),
{
    lemma_heard(cfg, schedule, inputs);
}

// ----- blocks --------------------------------------------------------------------------------------

/// An input does not lift the block of `ch`: no new day, no budget of none for it, and no restored
/// counters.
#[verifier::opaque]
pub open spec fn keeps_block(a: Arbiter, input: Input, ch: int) -> bool {
    &&& !a.new_day(local_of(input))
    &&& !(input is Restore)
    &&& !(input matches Input::SetMaxDaily { ch: c, minutes, now } && c == ch && minutes == 0)
}

/// Among the actions of an input is one that switches relay `ch` on.
#[verifier::opaque]
pub open spec fn switches_on(a: Arbiter, input: Input, ch: int) -> bool {
    exists|j: int|
        0 <= j < a.taken(input).actions.len() && #[trigger] a.taken(input).actions[j]
            == (Action::SetRelay { ch: ch as usize, on: true })
}

/// A relay that used up its budget is off, and over any history it stays blocked and off, and no
/// action switches it on, until the local day changes, its budget is lifted or counters are
/// restored.
#[verifier::rlimit(30)]
pub proof fn law_a_block_lasts(a: Arbiter, inputs: Seq<Input>, ch: int)
    requires
        a.obeys(),
        0 <= ch < CHANNELS,
        a.capped[ch],
        forall|k: int|
            0 <= k < inputs.len() ==> keeps_block(run(a, inputs.take(k)), #[trigger] inputs[k], ch),
    ensures
        !a.relays[ch],
        run(a, inputs).obeys(),
        run(a, inputs).capped[ch],
        !run(a, inputs).relays[ch],
        forall|k: int|
            0 <= k < inputs.len() ==> !switches_on(
                run(a, inputs.take(k)),
                #[trigger] inputs[k],
                ch,
            ),
    decreases inputs.len(),
{
    if inputs.len() > 0 {
        let rest = inputs.drop_last();
        let last = inputs.last();
        assert forall|k: int| 0 <= k < rest.len() implies keeps_block(
            run(a, rest.take(k)),
            #[trigger] rest[k],
            ch,
        ) by {
            assert(rest.take(k) =~= inputs.take(k));
            assert(rest[k] == inputs[k]);
        }
        law_a_block_lasts(a, rest, ch);
        assert(inputs.take(inputs.len() - 1) =~= rest);
        assert(inputs[inputs.len() - 1] == last);
        assert(keeps_block(run(a, rest), last, ch));
        lemma_block_kept(run(a, rest), last, ch);
        assert forall|k: int| 0 <= k < inputs.len() implies !switches_on(
            run(a, inputs.take(k)),
            #[trigger] inputs[k],
            ch,
        ) by {
            if k < rest.len() {
                assert(rest.take(k) =~= inputs.take(k));
                assert(rest[k] == inputs[k]);
            }
        }
    }
}

proof fn lemma_block_kept(a: Arbiter, input: Input, ch: int)
    requires
        a.obeys(),
        0 <= ch < CHANNELS,
        a.capped[ch],
        keeps_block(a, input, ch),
    ensures
        next(a, input).obeys(),
        next(a, input).capped[ch],
        !next(a, input).relays[ch],
        !switches_on(a, input, ch),
{
    reveal(next);
    reveal(keeps_block);
    reveal(switches_on);
    rules::law_inputs_keep_the_rules(a, input);
    lemma_capped_kept(a, input, ch);
    let ok = |x: Action| x != (Action::SetRelay { ch: ch as usize, on: true });
    lemma_input_all(a, input, ok);
    assert forall|j: int| 0 <= j < a.taken(input).actions.len() implies #[trigger] a.taken(
        input,
    ).actions[j] != (Action::SetRelay { ch: ch as usize, on: true }) by {
        assert(ok(a.taken(input).actions[j]));
    }
}

proof fn lemma_capped_kept(a: Arbiter, input: Input, ch: int)
    requires
        a.shaped(),
        0 <= ch < CHANNELS,
        a.capped[ch],
        keeps_block(a, input, ch),
    ensures
        a.taken(input).after.capped[ch],
{
    reveal(keeps_block);
    let p = a.noting(input);
    if refreshing(input) {
        laws::lemma_refresh_keeps(p, now_of(input), local_of(input));
        assert(p.account(now_of(input), local_of(input)).after.capped[ch]);
    }
    if input is HaCommand {
        if input->HaCommand_ch < CHANNELS {
            arbiter::lemma_switch_frame(
                p.refresh(input->HaCommand_now, None).after,
                input->HaCommand_ch as int,
                input->HaCommand_on,
                input->HaCommand_now,
                true,
            );
        }
    } else if input is LocalCommand {
        if input->LocalCommand_ch < CHANNELS {
            arbiter::lemma_switch_frame(
                a,
                input->LocalCommand_ch as int,
                input->LocalCommand_on,
                input->LocalCommand_now,
                false,
            );
        }
    }
}

// ----- the schedule after HA went away -------------------------------------------------------------

proof fn lemma_stays_due(a: Arbiter, input: Input)
    requires
        a.shaped(),
        a.takes(input),
        a.schedule_due(),
        local_of(input) is None,
    ensures
        next(a, input).schedule_due(),
{
    reveal(next);
    let p = a.noting(input);
    assert(p.sched_prev =~= arbiter::all_unset());
    if refreshing(input) {
        laws::lemma_refresh_stays_due(p, now_of(input));
        laws::lemma_refresh_keeps(p, now_of(input), None);
    }
    if input is HaCommand {
        if input->HaCommand_ch < CHANNELS {
            arbiter::lemma_switch_frame(
                p.refresh(input->HaCommand_now, None).after,
                input->HaCommand_ch as int,
                input->HaCommand_on,
                input->HaCommand_now,
                true,
            );
        }
    } else if input is LocalCommand {
        if input->LocalCommand_ch < CHANNELS {
            arbiter::lemma_switch_frame(
                a,
                input->LocalCommand_ch as int,
                input->LocalCommand_on,
                input->LocalCommand_now,
                false,
            );
        }
    }
}

proof fn lemma_run_stays_due(a: Arbiter, inputs: Seq<Input>)
    requires
        a.shaped(),
        a.schedule_due(),
        possible(a, inputs),
        forall|k: int| 0 <= k < inputs.len() ==> local_of(#[trigger] inputs[k]) is None,
    ensures
        run(a, inputs).schedule_due(),
    decreases inputs.len(),
{
    if inputs.len() > 0 {
        let rest = inputs.drop_last();
        lemma_possible_before(a, inputs);
        assert forall|k: int| 0 <= k < rest.len() implies local_of(#[trigger] rest[k]) is None by {
            assert(rest[k] == inputs[k]);
        }
        lemma_run_stays_due(a, rest);
        lemma_run_shaped(a, rest);
        assert(local_of(inputs[inputs.len() - 1]) is None);
        lemma_stays_due(run(a, rest), inputs.last());
    }
}

/// The input takes HA away, in a mode that is not `Off`, and brings no local time.
pub open spec fn leaves_without_time(a: Arbiter, input: Input) -> bool {
    &&& a.takes(input)
    &&& refreshing(input)
    &&& local_of(input) is None
    &&& a.link != Some(Link::OfflineSchedule)
    &&& next(a, input).link == Some(Link::OfflineSchedule)
    &&& next(a, input).cfg.mode != Mode::Off
}

/// After the input, which brings a local time, the stored schedule drives the relays in mode
/// `Auto`, without the interlock.
pub open spec fn follows_at_last(a: Arbiter, input: Input) -> bool {
    &&& local_of(input) is Some
    &&& next(a, input).link == Some(Link::OfflineSchedule)
    &&& next(a, input).cfg.mode == Mode::Auto
    &&& !next(a, input).cfg.exclusive
}

/// Relay `ch` is as the schedule wants it after the input. The exceptions are the budget and the
/// maximum on-time.
pub open spec fn as_scheduled(a: Arbiter, input: Input, ch: int) -> bool {
    let b = a.noting(input).account(now_of(input), local_of(input)).after;
    let f = next(a, input);
    f.relays[ch] == (f.wanted(ch, local_of(input)->0) && !b.capped[ch] && !(b.relays[ch]
        && b.overdue(now_of(input), ch)))
}

proof fn lemma_leaves(a: Arbiter, input: Input)
    requires
        a.shaped(),
        leaves_without_time(a, input),
    ensures
        next(a, input).schedule_due(),
{
    lemma_stands(a, input);
    let p = a.noting(input);
    laws::lemma_refresh_keeps(p, now_of(input), None);
    laws::law_going_offline_makes_the_schedule_due(p, now_of(input));
    reveal(next);
    if !(input is HaCommand) {
        lemma_noted(a, input);
    }
}

#[verifier::rlimit(40)]
proof fn lemma_noting_due(a: Arbiter, input: Input)
    requires
        a.obeys(),
        a.schedule_due(),
        local_of(input) is Some,
    ensures
        a.noting(input).obeys(),
        a.noting(input).schedule_due(),
        refreshing(input),
{
    assert(a.noting(input).sched_prev =~= arbiter::all_unset());
}

proof fn lemma_follows_at_last(a: Arbiter, input: Input, ch: int)
    requires
        a.obeys(),
        a.schedule_due(),
        follows_at_last(a, input),
        0 <= ch < CHANNELS,
    ensures
        as_scheduled(a, input, ch),
{
    lemma_noting_due(a, input);
    lemma_stands(a, input);
    lemma_noted(a, input);
    reveal(next);
    laws::law_going_offline_snaps_to_the_schedule(
        a.noting(input),
        now_of(input),
        local_of(input)->0,
        ch,
    );
}

/// The schedule is applied on every transition from online to offline, also if no local time was
/// at hand when it happened: then the first later input that brings one applies it to every relay
/// (in mode `Auto`, and without the interlock, which leaves at most one of them on).
pub proof fn law_going_offline_is_made_up_for(
    a: Arbiter,
    first: Input,
    between: Seq<Input>,
    last: Input,
    ch: int,
)
    requires
        a.obeys(),
        leaves_without_time(a, first),
        possible(next(a, first), between),
        forall|k: int| 0 <= k < between.len() ==> local_of(#[trigger] between[k]) is None,
        follows_at_last(run(next(a, first), between), last),
        0 <= ch < CHANNELS,
    ensures
        as_scheduled(run(next(a, first), between), last, ch),
{
    let b = next(a, first);
    lemma_leaves(a, first);
    lemma_rules_kept(a, first);
    lemma_run_stays_due(b, between);
    law_the_rules_hold_for_good(b, between);
    lemma_follows_at_last(run(b, between), last, ch);
}

} // verus!
