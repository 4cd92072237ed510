//! The actions of the arbiter name relays that the board has.

use vstd::prelude::*;

use crate::arbiter;
use crate::arbiter::{Action, Arbiter};
use crate::board::CHANNELS;
use crate::config::Mode;
use crate::rules::Input;
use crate::schedule::LocalTime;

verus! {

/// Every relay that is switched is one of the board's.
pub open spec fn on_board(actions: Seq<Action>) -> bool {
    forall|i: int|
        0 <= i < actions.len() ==> match #[trigger] actions[i] {
            Action::SetRelay { ch, on } => ch < CHANNELS,
            _ => true,
        }
}

proof fn lemma_on_board_push(s: Seq<Action>, a: Action)
    requires
        on_board(s),
        a matches Action::SetRelay { ch, on } ==> ch < CHANNELS,
    ensures
        on_board(s.push(a)),
{
    let t = s.push(a);
    assert forall|i: int| 0 <= i < t.len() implies match #[trigger] t[i] {
        Action::SetRelay { ch, on } => ch < CHANNELS,
        _ => true,
    } by {
        if i < s.len() {
            assert(t[i] == s[i]);
        }
    }
}

/// Two such lists of actions together are one.
pub proof fn lemma_on_board_concat(s: Seq<Action>, t: Seq<Action>)
    requires
        on_board(s),
        on_board(t),
    ensures
        on_board(s + t),
{
    let u = s + t;
    assert forall|i: int| 0 <= i < u.len() implies match #[trigger] u[i] {
        Action::SetRelay { ch, on } => ch < CHANNELS,
        _ => true,
    } by {
        if i < s.len() {
            assert(u[i] == s[i]);
        } else {
            assert(u[i] == t[i - s.len()]);
        }
    }
}

proof fn lemma_turned_off(before: Seq<bool>, after: Seq<bool>, n: nat)
    requires
        n <= CHANNELS,
    ensures
        on_board(arbiter::turned_off(before, after, n)),
    decreases n,
{
    if n > 0 {
        lemma_turned_off(before, after, (n - 1) as nat);
        lemma_on_board_push(
            arbiter::turned_off(before, after, (n - 1) as nat),
            Action::SetRelay { ch: (n - 1) as usize, on: false },
        );
    }
}

proof fn lemma_switch(a: Arbiter, ch: int, on: bool, now: u64, restart: bool)
    requires
        0 <= ch < CHANNELS,
    ensures
        on_board(a.switch(ch, on, now, restart).actions),
{
    reveal(Arbiter::switch);
    let quiet = if on && a.cfg.exclusive {
        a.interlocked(ch)
    } else {
        a.relays
    };
    lemma_turned_off(a.relays, quiet, CHANNELS as nat);
    lemma_on_board_push(
        arbiter::turned_off(a.relays, quiet, CHANNELS as nat),
        Action::SetRelay { ch: ch as usize, on },
    );
}

proof fn lemma_zero_usage(a: Arbiter, n: nat)
    ensures
        on_board(a.zero_usage(n)),
    decreases n,
{
    if n > 0 {
        lemma_zero_usage(a, (n - 1) as nat);
    }
}

proof fn lemma_book_reports(a: Arbiter, now: u64, n: nat)
    requires
        n <= CHANNELS,
    ensures
        on_board(a.book_reports(now, n)),
    decreases n,
{
    if n > 0 {
        lemma_book_reports(a, now, (n - 1) as nat);
        assert(on_board(a.book_report(now, n - 1)));
        lemma_on_board_concat(a.book_reports(now, (n - 1) as nat), a.book_report(now, n - 1));
    }
}

proof fn lemma_account(a: Arbiter, now: u64, local: Option<LocalTime>)
    ensures
        on_board(a.account(now, local).actions),
{
    lemma_zero_usage(a, CHANNELS as nat);
    lemma_on_board_concat(seq![Action::DayRolled], a.zero_usage(CHANNELS as nat));
    let b = a.roll(local).after;
    lemma_book_reports(b, now, CHANNELS as nat);
    lemma_on_board_concat(a.roll(local).actions, b.book(now).actions);
}

proof fn lemma_follow(
    a: Arbiter,
    wanted: Seq<bool>,
    apply: bool,
    snap: bool,
    now: u64,
    n: nat,
)
    requires
        n <= CHANNELS,
    ensures
        on_board(a.follow(wanted, apply, snap, now, n).actions),
    decreases n,
{
    if n > 0 {
        let m = (n - 1) as nat;
        lemma_follow(a, wanted, apply, snap, now, m);
        let b = a.follow(wanted, apply, snap, now, m).after;
        let want = wanted[n - 1];
        let noted = Arbiter { sched_prev: b.sched_prev.update(n - 1, Some(want)), ..b };
        lemma_switch(noted, n - 1, want, now, false);
        lemma_switch(b, n - 1, want, now, false);
        lemma_on_board_concat(
            seq![Action::ScheduleWants { ch: (n - 1) as usize, on: want }],
            noted.switch(n - 1, want, now, false).actions,
        );
        lemma_on_board_concat(seq![], b.switch(n - 1, want, now, false).actions);
        lemma_on_board_concat(
            a.follow(wanted, apply, snap, now, m).actions,
            b.follow_one(n - 1, want, apply, snap, now).actions,
        );
    }
}

proof fn lemma_hold_safe(a: Arbiter, now: u64, n: nat)
    requires
        n <= CHANNELS,
    ensures
        on_board(a.hold_safe(now, n).actions),
    decreases n,
{
    if n > 0 {
        let m = (n - 1) as nat;
        lemma_hold_safe(a, now, m);
        let b = a.hold_safe(now, m).after;
        let safe = a.cfg.channels[n - 1].safe_state;
        lemma_switch(b, n - 1, safe, now, false);
        lemma_on_board_concat(
            a.hold_safe(now, m).actions,
            b.switch(n - 1, safe, now, false).actions,
        );
    }
}

proof fn lemma_trip(a: Arbiter, now: u64, n: nat)
    requires
        n <= CHANNELS,
    ensures
        on_board(a.trip_reports(now, n)),
    decreases n,
{
    if n > 0 {
        lemma_trip(a, now, (n - 1) as nat);
        let rest = a.trip_reports(now, (n - 1) as nat);
        let off = Action::SetRelay { ch: (n - 1) as usize, on: false };
        let told = Action::SafeguardTripped { ch: (n - 1) as usize };
        lemma_on_board_push(rest, off);
        lemma_on_board_push(rest.push(off), told);
        lemma_on_board_push(rest, told);
    }
}

proof fn lemma_drive(a: Arbiter, now: u64, local: Option<LocalTime>, changed: bool)
    ensures
        on_board(a.drive(now, local, changed).actions),
{
    let ended = a.end_hold();
    let b = ended.after;
    let mut f = ended;
    if local is Some {
        let wanted = Seq::new(CHANNELS as nat, |ch: int| b.wanted(ch, local->0));
        let apply = b.link == Some(arbiter::Link::OfflineSchedule) && b.cfg.mode == Mode::Auto;
        lemma_follow(b, wanted, apply, changed, now, CHANNELS as nat);
        f = ended.and(b.follow(wanted, apply, changed, now, CHANNELS as nat));
        lemma_on_board_concat(
            ended.actions,
            b.follow(wanted, apply, changed, now, CHANNELS as nat).actions,
        );
    } else {
        f = ended.and(arbiter::stay(b.postpone(changed)));
    }
    lemma_hold_safe(f.after, now, CHANNELS as nat);
    lemma_on_board_concat(f.actions, f.after.hold_safe(now, CHANNELS as nat).actions);
}

proof fn lemma_refresh(a: Arbiter, now: u64, local: Option<LocalTime>)
    ensures
        on_board(a.refresh(now, local).actions),
{
    reveal(Arbiter::refresh);
    let booked = a.account(now, local);
    lemma_account(a, now, local);
    let relinked = booked.after.relink(now);
    lemma_on_board_concat(booked.actions, relinked.actions);
    let linked = booked.and(relinked);
    let changed = a.link != Some(booked.after.link_at(now));
    lemma_drive(linked.after, now, local, changed);
    let drive = linked.after.drive(now, local, changed);
    lemma_on_board_concat(linked.actions, drive.actions);
    let driven = if a.cfg.mode == Mode::Off {
        linked
    } else {
        linked.and(drive)
    };
    lemma_trip(driven.after, now, CHANNELS as nat);
    lemma_on_board_concat(driven.actions, driven.after.trip(now).actions);
}

/// Whatever happens, every relay that is switched is one of the board's.
pub proof fn law_only_real_relays_are_switched(a: Arbiter, input: Input)
    ensures
        on_board(a.taken(input).actions),
{
    match input {
        Input::HaConnected { now } => {
            lemma_refresh(a.connected(now), now, None);
        },
        Input::HaDisconnected { now, local } => {
            lemma_refresh(a.disconnected(), now, local);
        },
        Input::HaSeen { now } => {
            lemma_refresh(a.seen(now), now, None);
        },
        Input::HaOffline { now, local } => {
            lemma_refresh(a.declared_offline(), now, local);
        },
        Input::TimeKnown { now, at } => {
            lemma_refresh(a.with_time_known(), now, Some(at));
        },
        Input::HaCommand { ch, on, now } => {
            let seen = a.seen(now).refresh(now, None);
            lemma_refresh(a.seen(now), now, None);
            if ch < CHANNELS {
                lemma_switch(seen.after, ch as int, on, now, true);
                lemma_on_board_concat(
                    seen.actions,
                    seen.after.switch(ch as int, on, now, true).actions,
                );
            }
        },
        Input::LocalCommand { ch, on, now } => {
            if ch < CHANNELS {
                lemma_switch(a, ch as int, on, now, false);
            }
        },
        Input::AllOff { now } => {
            lemma_turned_off(a.relays, arbiter::all_false(), CHANNELS as nat);
        },
        Input::SetSchedule { schedule, now, local } => {
            lemma_refresh(a.with_schedule(schedule), now, local);
        },
        Input::SetMaxOn { ch, minutes, now } => {
            lemma_trip(a.with_max_on(ch, minutes), now, CHANNELS as nat);
        },
        Input::SetMaxDaily { ch, minutes, now } => {
            lemma_account(a.with_daily_cap(ch, minutes), now, None);
        },
        Input::SetSafeState { ch, on, now } => {
            lemma_refresh(a.with_safe_state(ch, on), now, None);
        },
        Input::SetExclusive { on, now } => {
            lemma_turned_off(a.relays, a.lowest_only(), CHANNELS as nat);
        },
        Input::SetRainHold { hours, now, local } => {
            lemma_refresh(a.with_rain_hold(hours), now, local);
        },
        Input::SetGrace { secs, now, local } => {
            lemma_refresh(a.with_grace(secs), now, local);
        },
        Input::SetMode { mode, now, local } => {
            let b = a.mode_set(mode);
            let quiet = if mode == Mode::Off {
                b.drop_to(arbiter::all_false())
            } else {
                arbiter::stay(b)
            };
            lemma_turned_off(b.relays, arbiter::all_false(), CHANNELS as nat);
            lemma_refresh(quiet.after, now, local);
            lemma_on_board_concat(quiet.actions, quiet.after.refresh(now, local).actions);
        },
        Input::Tick { now, local } => {
            lemma_refresh(a, now, local);
        },
        _ => {},
    }
}

} // verus!
