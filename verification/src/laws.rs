//! What the arbiter promises about schedules, limits, budgets and who is in charge.

use vstd::prelude::*;

use crate::arbiter;
use crate::arbiter::{Action, Arbiter, Link};
use crate::board::CHANNELS;
use crate::config::{ConfigModel, Mode};
use crate::rules;
use crate::rules::Input;
use crate::safeguard;
use crate::schedule::LocalTime;

verus! {

// ----- what the parts of a step leave alone ------------------------------------------------------

/// What the schedule asks of each channel at `t`.
pub open spec fn wishes(a: Arbiter, t: LocalTime) -> Seq<bool> {
    Seq::new(CHANNELS as nat, |ch: int| a.wanted(ch, t))
}

proof fn lemma_follow_frame(
    a: Arbiter,
    wanted: Seq<bool>,
    apply: bool,
    snap: bool,
    now: u64,
    n: nat,
)
    requires
        a.shaped(),
        n <= CHANNELS,
    ensures
        ({
            let f = a.follow(wanted, apply, snap, now, n).after;
            &&& f == Arbiter {
                relays: f.relays,
                timers: f.timers,
                sched_prev: f.sched_prev,
                ..a
            }
            &&& f.shaped()
            &&& forall|i: int|
                0 <= i < CHANNELS ==> #[trigger] f.sched_prev[i] == (if i < n {
                    Some(wanted[i])
                } else {
                    a.sched_prev[i]
                })
        }),
    decreases n,
{
    if n > 0 {
        let m = (n - 1) as nat;
        lemma_follow_frame(a, wanted, apply, snap, now, m);
        let b = a.follow(wanted, apply, snap, now, m).after;
        let noted = Arbiter { sched_prev: b.sched_prev.update(m as int, Some(wanted[m as int])), ..b };
        arbiter::lemma_switch_frame(noted, m as int, wanted[m as int], now, false);
        arbiter::lemma_switch_frame(b, m as int, wanted[m as int], now, false);
    }
}

proof fn lemma_hold_safe_frame(a: Arbiter, now: u64, n: nat)
    requires
        a.shaped(),
        n <= CHANNELS,
    ensures
        ({
            let f = a.hold_safe(now, n).after;
            &&& f == Arbiter { relays: f.relays, timers: f.timers, ..a }
            &&& f.shaped()
        }),
    decreases n,
{
    if n > 0 {
        let m = (n - 1) as nat;
        lemma_hold_safe_frame(a, now, m);
        arbiter::lemma_switch_frame(
            a.hold_safe(now, m).after,
            m as int,
            a.cfg.channels[m as int].safe_state,
            now,
            false,
        );
    }
}

proof fn lemma_drive_frame(a: Arbiter, now: u64, local: Option<LocalTime>, changed: bool)
    requires
        a.shaped(),
    ensures
        ({
            let f = a.drive(now, local, changed).after;
            &&& f == Arbiter {
                cfg: a.end_hold().after.cfg,
                relays: f.relays,
                timers: f.timers,
                sched_prev: f.sched_prev,
                ..a
            }
            &&& f.shaped()
            &&& local is Some ==> f.sched_prev == wishes(a.end_hold().after, local->0).map_values(
                |w: bool| Some(w),
            )
        }),
{
    let b = a.end_hold().after;
    let mut f = b;
    if local is Some {
        let wanted = wishes(b, local->0);
        let apply = b.link == Some(Link::OfflineSchedule) && b.cfg.mode == Mode::Auto;
        lemma_follow_frame(b, wanted, apply, changed, now, CHANNELS as nat);
        f = b.follow(wanted, apply, changed, now, CHANNELS as nat).after;
        assert(f.sched_prev =~= wanted.map_values(|w: bool| Some(w)));
    }
    lemma_hold_safe_frame(f, now, CHANNELS as nat);
}

/// A refresh books on-time, takes over the link, lets schedule and safe state drive the relays
/// unless the mode is `Off`, and trips the safeguard.
spec fn driven(a: Arbiter, now: u64, local: Option<LocalTime>) -> Arbiter {
    let b = a.account(now, local).after;
    let l = b.relink(now).after;
    if a.cfg.mode == Mode::Off {
        l
    } else {
        l.drive(now, local, a.link != Some(b.link_at(now))).after
    }
}

proof fn lemma_refresh_frame(a: Arbiter, now: u64, local: Option<LocalTime>)
    requires
        a.shaped(),
    ensures
        ({
            let b = a.account(now, local).after;
            let f = a.refresh(now, local).after;
            let d = driven(a, now, local);
            &&& f == d.trip(now).after
            &&& d.shaped()
            &&& f.shaped()
            &&& f == Arbiter {
                cfg: ConfigModel { rain_hold_until: f.cfg.rain_hold_until, ..a.cfg },
                relays: f.relays,
                timers: f.timers,
                sched_prev: f.sched_prev,
                link: Some(b.link_at(now)),
                ..b
            }
            &&& f.link_at(now) == b.link_at(now)
        }),
{
    reveal(Arbiter::refresh);
    let b = a.account(now, local).after;
    let l = b.relink(now).after;
    lemma_drive_frame(l, now, local, a.link != Some(b.link_at(now)));
}

/// What a refresh leaves alone, and the link that it takes over.
pub proof fn lemma_refresh_keeps(a: Arbiter, now: u64, local: Option<LocalTime>)
    requires
        a.shaped(),
    ensures
        ({
            let b = a.account(now, local).after;
            let f = a.refresh(now, local).after;
            &&& f.shaped()
            &&& f == Arbiter {
                cfg: ConfigModel { rain_hold_until: f.cfg.rain_hold_until, ..a.cfg },
                relays: f.relays,
                timers: f.timers,
                sched_prev: f.sched_prev,
                link: Some(a.link_at(now)),
                on_today_ms: b.on_today_ms,
                total_ms: b.total_ms,
                capped: b.capped,
                today: b.today,
                last_account_ms: b.last_account_ms,
                ..a
            }
        }),
{
    lemma_refresh_frame(a, now, local);
    assert(a.account(now, local).after.link_at(now) == a.link_at(now));
}

// ----- limits --------------------------------------------------------------------------------------

/// After a tick no relay is on that has reached its maximum on-time.
pub proof fn law_tick_ends_overlong_runs(a: Arbiter, now: u64, local: Option<LocalTime>)
    requires
        a.shaped(),
    ensures
        forall|ch: int|
            0 <= ch < CHANNELS && #[trigger] a.refresh(now, local).after.relays[ch]
                ==> !a.refresh(now, local).after.overdue(now, ch),
{
    lemma_refresh_frame(a, now, local);
    let d = driven(a, now, local);
    let f = d.trip(now).after;
    assert forall|ch: int| 0 <= ch < CHANNELS && #[trigger] f.relays[ch] implies !f.overdue(
        now,
        ch,
    ) by {
        assert(f.timers[ch] == d.timers[ch]);
    }
}

/// A changed maximum on-time takes effect at once.
pub proof fn law_new_limit_takes_effect_at_once(a: Arbiter, ch: usize, minutes: u16, now: u64)
    requires
        a.shaped(),
    ensures
        forall|i: int|
            0 <= i < CHANNELS && #[trigger] a.taken(
                Input::SetMaxOn { ch, minutes, now },
            ).after.relays[i] ==> !a.taken(Input::SetMaxOn { ch, minutes, now }).after.overdue(
                now,
                i,
            ),
{
    let d = a.with_max_on(ch, minutes);
    let f = d.trip(now).after;
    assert forall|i: int| 0 <= i < CHANNELS && #[trigger] f.relays[i] implies !f.overdue(
        now,
        i,
    ) by {
        assert(f.timers[i] == d.timers[i]);
    }
}

// ----- daily budgets and counters ------------------------------------------------------------------

/// Once on-time is booked, every relay that is on has budget left.
pub proof fn law_booking_enforces_the_budget(a: Arbiter, now: u64, local: Option<LocalTime>)
    requires
        a.shaped(),
    ensures
        forall|ch: int|
            0 <= ch < CHANNELS && #[trigger] a.account(now, local).after.relays[ch] ==> {
                let f = a.account(now, local).after;
                f.cap(ch) == 0 || f.on_today_ms[ch] < f.cap(ch)
            },
{
}

/// The counters have room for what an input adds to them.
pub open spec fn has_room(a: Arbiter, input: Input) -> bool {
    match input {
        Input::HaConnected { now } => a.can_book(now),
        Input::HaDisconnected { now, local } => a.fits(now, local),
        Input::HaSeen { now } => a.can_book(now),
        Input::HaOffline { now, local } => a.fits(now, local),
        Input::TimeKnown { now, at } => a.fits(now, Some(at)),
        Input::HaCommand { ch, on, now } => a.can_book(now),
        Input::SetSchedule { schedule, now, local } => a.fits(now, local),
        Input::SetMaxDaily { ch, minutes, now } => a.can_book(now),
        Input::SetSafeState { ch, on, now } => a.can_book(now),
        Input::SetRainHold { hours, now, local } => a.fits(now, local),
        Input::SetGrace { secs, now, local } => a.fits(now, local),
        Input::SetMode { mode, now, local } => mode == Mode::Off || a.fits(now, local),
        Input::Tick { now, local } => a.fits(now, local),
        _ => true,
    }
}

/// The local time that comes with an input.
pub open spec fn local_of(input: Input) -> Option<LocalTime> {
    match input {
        Input::HaDisconnected { now, local } => local,
        Input::HaOffline { now, local } => local,
        Input::TimeKnown { now, at } => Some(at),
        Input::SetSchedule { schedule, now, local } => local,
        Input::SetRainHold { hours, now, local } => local,
        Input::SetGrace { secs, now, local } => local,
        Input::SetMode { mode, now, local } => local,
        Input::Tick { now, local } => local,
        _ => None,
    }
}

/// What an input does to counters and cap blocks: nothing, or what booking does.
proof fn lemma_counters(a: Arbiter, input: Input)
    requires
        a.obeys(),
        has_room(a, input),
        !(input is Restore),
    ensures
        ({
            let f = a.taken(input).after;
            &&& f.shaped()
            &&& forall|i: int|
                0 <= i < CHANNELS ==> #[trigger] f.total_ms[i] >= a.total_ms[i]
            &&& !a.new_day(local_of(input)) ==> forall|i: int|
                0 <= i < CHANNELS ==> #[trigger] f.on_today_ms[i] >= a.on_today_ms[i]
            &&& !a.new_day(local_of(input)) ==> forall|i: int|
                0 <= i < CHANNELS && a.capped[i] && !(input matches Input::SetMaxDaily {
                    ch,
                    minutes,
                    now,
                } && ch == i && minutes == 0) ==> #[trigger] f.capped[i]
        }),
{
    match input {
        Input::HaConnected { now } => {
            lemma_refresh_counters(a, a.connected(now), now, None);
        },
        Input::HaDisconnected { now, local } => {
            lemma_refresh_counters(a, a.disconnected(), now, local);
        },
        Input::HaSeen { now } => {
            lemma_refresh_counters(a, a.seen(now), now, None);
        },
        Input::HaOffline { now, local } => {
            lemma_refresh_counters(a, a.declared_offline(), now, local);
        },
        Input::TimeKnown { now, at } => {
            lemma_refresh_counters(a, a.with_time_known(), now, Some(at));
        },
        Input::HaCommand { ch, on, now } => {
            lemma_refresh_counters(a, a.seen(now), now, None);
            let s = a.seen(now).refresh(now, None).after;
            if ch < CHANNELS {
                arbiter::lemma_switch_frame(s, ch as int, on, now, true);
            }
        },
        Input::LocalCommand { ch, on, now } => {
            if ch < CHANNELS {
                arbiter::lemma_switch_frame(a, ch as int, on, now, false);
            }
        },
        Input::SetSchedule { schedule, now, local } => {
            lemma_refresh_counters(a, a.with_schedule(schedule), now, local);
        },
        Input::SetSafeState { ch, on, now } => {
            lemma_refresh_counters(a, a.with_safe_state(ch, on), now, None);
        },
        Input::SetRainHold { hours, now, local } => {
            lemma_refresh_counters(a, a.with_rain_hold(hours), now, local);
        },
        Input::SetGrace { secs, now, local } => {
            lemma_refresh_counters(a, a.with_grace(secs), now, local);
        },
        Input::SetMode { mode, now, local } => {
            let b = a.mode_set(mode);
            let q = if mode == Mode::Off {
                b.drop_to(arbiter::all_false()).after
            } else {
                b
            };
            lemma_refresh_counters(a, q, now, local);
        },
        Input::Tick { now, local } => {
            lemma_refresh_counters(a, a, now, local);
        },
        _ => {},
    }
}

proof fn lemma_refresh_counters(a: Arbiter, b: Arbiter, now: u64, local: Option<LocalTime>)
    requires
        a.shaped(),
        b.shaped(),
        b.relays == a.relays ==> a.fits(now, local),
        b.relays == a.relays || b.relays == arbiter::all_false(),
        b.on_today_ms == a.on_today_ms,
        b.total_ms == a.total_ms,
        b.capped == a.capped,
        b.today == a.today,
        b.last_account_ms == a.last_account_ms,
    ensures
        ({
            let f = b.refresh(now, local).after;
            &&& f.shaped()
            &&& forall|i: int|
                0 <= i < CHANNELS ==> #[trigger] f.total_ms[i] >= a.total_ms[i]
            &&& !a.new_day(local) ==> forall|i: int|
                0 <= i < CHANNELS ==> #[trigger] f.on_today_ms[i] >= a.on_today_ms[i]
            &&& !a.new_day(local) ==> forall|i: int|
                0 <= i < CHANNELS && a.capped[i] ==> #[trigger] f.capped[i]
        }),
{
    lemma_refresh_frame(b, now, local);
    if b.relays == a.relays {
        arbiter::lemma_fits_same(a, b, now, local);
    }
    let r = b.roll(local).after;
    assert(r.can_book(now));
    let f = r.book(now).after;
    assert forall|i: int| 0 <= i < CHANNELS implies #[trigger] f.total_ms[i] >= a.total_ms[i] by {
        assert(r.relays[i] ==> r.total_ms[i] + r.unbooked(now) <= u64::MAX);
    }
    if !a.new_day(local) {
        assert forall|i: int| 0 <= i < CHANNELS implies #[trigger] f.on_today_ms[i]
            >= a.on_today_ms[i] by {
            assert(r.relays[i] ==> r.on_today_ms[i] + r.unbooked(now) <= u64::MAX);
        }
    }
}

/// The lifetime counters never run backwards.
pub proof fn law_totals_never_fall(a: Arbiter, input: Input)
    requires
        a.obeys(),
        has_room(a, input),
        !(input is Restore),
    ensures
        forall|ch: int|
            0 <= ch < CHANNELS ==> #[trigger] a.taken(input).after.total_ms[ch] >= a.total_ms[ch],
{
    lemma_counters(a, input);
}

/// Within a day neither do today's.
pub proof fn law_today_grows_until_midnight(a: Arbiter, input: Input)
    requires
        a.obeys(),
        has_room(a, input),
        !(input is Restore),
        !a.new_day(local_of(input)),
    ensures
        forall|ch: int|
            0 <= ch < CHANNELS ==> #[trigger] a.taken(input).after.on_today_ms[ch]
                >= a.on_today_ms[ch],
{
    lemma_counters(a, input);
}

impl Arbiter {
    /// The channel has a daily budget, and its on-time today has used it up.
    pub open spec fn spent(self, ch: int) -> bool {
        self.cap(ch) > 0 && self.on_today_ms[ch] >= self.cap(ch)
    }

    /// Every channel that has used up its budget is blocked.
    pub open spec fn blocks_spent(self) -> bool {
        forall|i: int| 0 <= i < CHANNELS && #[trigger] self.spent(i) ==> self.capped[i]
    }
}

proof fn lemma_account_blocks_spent(a: Arbiter, now: u64, local: Option<LocalTime>)
    requires
        a.shaped(),
        forall|i: int|
            0 <= i < CHANNELS && #[trigger] a.spent(i) ==> a.capped[i] || a.relays[i],
    ensures
        a.account(now, local).after.blocks_spent(),
{
    let r = a.roll(local).after;
    let f = r.book(now).after;
    assert forall|i: int| 0 <= i < CHANNELS && #[trigger] f.spent(i) implies f.capped[i] by {
        if !a.new_day(local) {
            assert(a.spent(i) == r.spent(i));
        }
    }
}

/// A relay whose on-time today has reached its budget is blocked, in every state: at the start,
/// and whatever happens. That holds of a budget that was set after the time was used, too.
pub proof fn law_spent_budgets_are_blocked(a: Arbiter, input: Input)
    requires
        a.shaped(),
        a.takes(input),
        a.blocks_spent(),
    ensures
        a.taken(input).after.blocks_spent(),
        arbiter::started(a.cfg, a.schedule).blocks_spent(),
{
    let f = a.taken(input).after;
    match input {
        Input::SetMaxDaily { ch, minutes, now } => {
            let b = a.with_daily_cap(ch, minutes);
            assert forall|i: int| 0 <= i < CHANNELS && #[trigger] b.spent(i) implies b.capped[i]
                || b.relays[i] by {
                if i != ch {
                    assert(a.spent(i));
                }
            }
            lemma_account_blocks_spent(b, now, None);
        },
        Input::HaConnected { now } => {
            lemma_refresh_blocks_spent(a, a.connected(now), now, None);
        },
        Input::HaDisconnected { now, local } => {
            lemma_refresh_blocks_spent(a, a.disconnected(), now, local);
        },
        Input::HaSeen { now } => {
            lemma_refresh_blocks_spent(a, a.seen(now), now, None);
        },
        Input::HaOffline { now, local } => {
            lemma_refresh_blocks_spent(a, a.declared_offline(), now, local);
        },
        Input::TimeKnown { now, at } => {
            lemma_refresh_blocks_spent(a, a.with_time_known(), now, Some(at));
        },
        Input::HaCommand { ch, on, now } => {
            lemma_refresh_blocks_spent(a, a.seen(now), now, None);
            let s = a.seen(now).refresh(now, None).after;
            if ch < CHANNELS {
                arbiter::lemma_switch_frame(s, ch as int, on, now, true);
            }
            assert forall|i: int| 0 <= i < CHANNELS && #[trigger] f.spent(i) implies f.capped[i] by {
                assert(s.spent(i));
            }
        },
        Input::SetSchedule { schedule, now, local } => {
            lemma_refresh_blocks_spent(a, a.with_schedule(schedule), now, local);
        },
        Input::SetSafeState { ch, on, now } => {
            lemma_refresh_blocks_spent(a, a.with_safe_state(ch, on), now, None);
        },
        Input::SetRainHold { hours, now, local } => {
            lemma_refresh_blocks_spent(a, a.with_rain_hold(hours), now, local);
        },
        Input::SetGrace { secs, now, local } => {
            lemma_refresh_blocks_spent(a, a.with_grace(secs), now, local);
        },
        Input::SetMode { mode, now, local } => {
            let b = a.mode_set(mode);
            let q = if mode == Mode::Off {
                b.drop_to(arbiter::all_false()).after
            } else {
                b
            };
            lemma_refresh_blocks_spent(a, q, now, local);
        },
        Input::Tick { now, local } => {
            lemma_refresh_blocks_spent(a, a, now, local);
        },
        Input::LocalCommand { ch, on, now } => {
            if ch < CHANNELS {
                arbiter::lemma_switch_frame(a, ch as int, on, now, false);
            }
            assert forall|i: int| 0 <= i < CHANNELS && #[trigger] f.spent(i) implies f.capped[i] by {
                assert(a.spent(i));
            }
        },
        Input::Restore { day, on_today_ms, total_ms } => {},
        _ => {
            assert forall|i: int| 0 <= i < CHANNELS && #[trigger] f.spent(i) implies f.capped[i] by {
                assert(a.spent(i));
            }
        },
    }
}

proof fn lemma_refresh_blocks_spent(a: Arbiter, b: Arbiter, now: u64, local: Option<LocalTime>)
    requires
        a.blocks_spent(),
        b.shaped(),
        b.on_today_ms == a.on_today_ms,
        b.capped == a.capped,
        forall|i: int| 0 <= i < CHANNELS ==> #[trigger] b.cap(i) == a.cap(i),
    ensures
        b.refresh(now, local).after.blocks_spent(),
{
    assert forall|i: int| 0 <= i < CHANNELS && #[trigger] b.spent(i) implies b.capped[i] by {
        assert(b.cap(i) == a.cap(i));
        assert(a.spent(i));
    }
    lemma_account_blocks_spent(b, now, local);
    lemma_refresh_keeps(b, now, local);
    let c = b.account(now, local).after;
    let f = b.refresh(now, local).after;
    assert forall|i: int| 0 <= i < CHANNELS && #[trigger] f.spent(i) implies f.capped[i] by {
        assert(c.spent(i));
    }
}

/// A relay that used up its budget stays off and blocked, whoever asks, until local midnight or
/// until its budget is lifted.
pub proof fn law_spent_budget_blocks_everyone(a: Arbiter, input: Input, ch: int)
    requires
        a.obeys(),
        a.blocks_spent(),
        has_room(a, input),
        !(input is Restore),
        !a.new_day(local_of(input)),
        0 <= ch < CHANNELS,
        a.capped[ch] || a.spent(ch),
        !(input matches Input::SetMaxDaily { ch: c, minutes, now } && c == ch && minutes == 0),
    ensures
        a.taken(input).after.capped[ch],
        !a.taken(input).after.relays[ch],
{
    lemma_counters(a, input);
    rules::law_inputs_keep_the_rules(a, input);
}

/// Local midnight clears today's counters and every block, and keeps the lifetime counters and
/// the relays.
pub proof fn law_midnight_starts_afresh(a: Arbiter, local: Option<LocalTime>)
    requires
        a.shaped(),
        a.new_day(local),
    ensures
        forall|ch: int| 0 <= ch < CHANNELS ==> #[trigger] a.roll(local).after.on_today_ms[ch] == 0,
        forall|ch: int| 0 <= ch < CHANNELS ==> !#[trigger] a.roll(local).after.capped[ch],
        a.roll(local).after.total_ms == a.total_ms,
        a.roll(local).after.relays == a.relays,
        a.roll(local).after.today == Some((local->0).day),
{
}

/// The counters survive a reboot: restored into any other state, they are what they were, and
/// the same channels are blocked whose budget they use up.
pub proof fn law_usage_survives_a_reboot(a: Arbiter, b: Arbiter)
    requires
        a.shaped(),
        b.shaped(),
        a.today != Some(0u32),
    ensures
        ({
            let day = match a.today {
                Some(d) => d,
                None => 0,
            };
            let f = b.taken(
                Input::Restore { day, on_today_ms: a.on_today_ms, total_ms: a.total_ms },
            ).after;
            &&& f.today == a.today
            &&& f.on_today_ms == a.on_today_ms
            &&& f.total_ms == a.total_ms
            &&& forall|ch: int|
                0 <= ch < CHANNELS ==> #[trigger] f.capped[ch] == (f.cap(ch) > 0
                    && a.on_today_ms[ch] >= f.cap(ch))
        }),
{
}

// ----- who is in charge ----------------------------------------------------------------------------

/// A relay that is on after a switch was on before, or is the one that was asked to go on.
proof fn lemma_switch_on(a: Arbiter, ch: int, on: bool, now: u64, restart: bool)
    requires
        a.shaped(),
        0 <= ch < CHANNELS,
    ensures
        ({
            let f = a.switch(ch, on, now, restart).after;
            &&& forall|i: int|
                0 <= i < CHANNELS && #[trigger] f.relays[i] ==> a.relays[i] || (i == ch && on
                    && !a.capped[ch])
            &&& !(on && a.capped[ch]) ==> f.relays[ch] == on
            &&& !(on && a.cfg.exclusive) ==> forall|i: int|
                0 <= i < CHANNELS && i != ch ==> #[trigger] f.relays[i] == a.relays[i]
                    && f.timers[i] == a.timers[i]
            &&& on && !a.capped[ch] && (restart || !a.relays[ch]) ==> f.timers[ch] == Some(now)
            &&& (on && a.relays[ch] && !restart) ==> f.timers[ch] == a.timers[ch]
        }),
{
    reveal(Arbiter::switch);
}

/// A command from HA drives its relay while the link is online, whatever the schedule and the
/// rain hold say, unless the relay has used up its budget. Asked again for a relay that is on,
/// it gives it a fresh maximum on-time.
pub proof fn law_ha_command_drives_the_relay_online(a: Arbiter, ch: usize, on: bool, now: u64)
    requires
        a.shaped(),
        ch < CHANNELS,
        a.cfg.mode != Mode::Off,
        a.seen(now).refresh(now, None).after.link_now() == Link::Online,
    ensures
        ({
            let before = a.seen(now).refresh(now, None).after;
            let f = a.ha_command(ch, on, now).after;
            !(on && before.capped[ch as int]) ==> {
                &&& f.relays[ch as int] == on
                &&& on ==> f.timers[ch as int] == Some(now)
            }
        }),
{
    lemma_refresh_frame(a.seen(now), now, None);
    lemma_switch_on(a.seen(now).refresh(now, None).after, ch as int, on, now, true);
}

/// A command from HA is only a sign of life while the link is not online.
pub proof fn law_ha_command_is_a_heartbeat_offline(a: Arbiter, ch: usize, on: bool, now: u64)
    requires
        a.seen(now).refresh(now, None).after.link_now() != Link::Online,
    ensures
        a.ha_command(ch, on, now) == a.seen(now).refresh(now, None),
{
}

/// Asking HA's way for what already is switches nothing.
pub proof fn law_repeated_command_switches_nothing(a: Arbiter, ch: usize, now: u64, restart: bool)
    requires
        a.obeys(),
        ch < CHANNELS,
    ensures
        a.switch(ch as int, a.relays[ch as int], now, restart).actions == Seq::<Action>::empty(),
        a.switch(ch as int, a.relays[ch as int], now, restart).after.relays == a.relays,
{
    reveal(Arbiter::switch);
    let on = a.relays[ch as int];
    let quiet = if on && a.cfg.exclusive {
        a.interlocked(ch as int)
    } else {
        a.relays
    };
    assert(quiet =~= a.relays);
    arbiter::lemma_turned_off_same(a.relays, quiet, CHANNELS as nat);
}

/// A local command always drives its relay, except in mode `Off` or with the budget used up.
pub proof fn law_local_command_drives_the_relay(a: Arbiter, ch: usize, on: bool, now: u64)
    requires
        a.shaped(),
        ch < CHANNELS,
        a.cfg.mode != Mode::Off,
        !(on && a.capped[ch as int]),
    ensures
        a.local_command(ch, on, now).after.relays[ch as int] == on,
{
    lemma_switch_on(a, ch as int, on, now, false);
}

proof fn lemma_follow_on(
    a: Arbiter,
    wanted: Seq<bool>,
    apply: bool,
    snap: bool,
    now: u64,
    n: nat,
)
    requires
        a.shaped(),
        n <= CHANNELS,
    ensures
        forall|i: int|
            0 <= i < CHANNELS && #[trigger] a.follow(
                wanted,
                apply,
                snap,
                now,
                n,
            ).after.relays[i] ==> a.relays[i] || (apply && wanted[i]),
    decreases n,
{
    if n > 0 {
        let m = (n - 1) as nat;
        lemma_follow_on(a, wanted, apply, snap, now, m);
        lemma_follow_frame(a, wanted, apply, snap, now, m);
        let b = a.follow(wanted, apply, snap, now, m).after;
        let noted = Arbiter { sched_prev: b.sched_prev.update(m as int, Some(wanted[m as int])), ..b };
        lemma_switch_on(noted, m as int, wanted[m as int], now, false);
        lemma_switch_on(b, m as int, wanted[m as int], now, false);
    }
}

proof fn lemma_hold_safe_on(a: Arbiter, now: u64, n: nat)
    requires
        a.shaped(),
        n <= CHANNELS,
    ensures
        forall|i: int|
            0 <= i < CHANNELS && #[trigger] a.hold_safe(now, n).after.relays[i] ==> a.relays[i]
                || a.cfg.channels[i].safe_state,
    decreases n,
{
    if n > 0 {
        let m = (n - 1) as nat;
        lemma_hold_safe_on(a, now, m);
        lemma_hold_safe_frame(a, now, m);
        lemma_switch_on(
            a.hold_safe(now, m).after,
            m as int,
            a.cfg.channels[m as int].safe_state,
            now,
            false,
        );
    }
}

/// The device switches a relay on by itself for two reasons only: the stored schedule wants it,
/// outside a rain hold, while the mode is `Auto` and HA is away; or HA and the time have just
/// been lost and on is its safe state. So while HA is online, in mode `Manual` and during a rain
/// hold the schedule switches nothing on.
pub proof fn law_what_switches_a_relay_on(a: Arbiter, now: u64, local: Option<LocalTime>, ch: int)
    requires
        a.shaped(),
        0 <= ch < CHANNELS,
        !a.relays[ch],
        a.refresh(now, local).after.relays[ch],
    ensures
        ({
            let f = a.refresh(now, local).after;
            ||| {
                &&& f.link == Some(Link::OfflineSchedule)
                &&& a.cfg.mode == Mode::Auto
                &&& local is Some
                &&& !f.held()
                &&& a.schedule.wants(ch, local->0)
            }
            ||| {
                &&& f.link == Some(Link::OfflineUnknownTime)
                &&& a.link != Some(Link::OfflineUnknownTime)
                &&& a.cfg.mode != Mode::Off
                &&& a.cfg.channels[ch].safe_state
            }
        }),
{
    lemma_refresh_frame(a, now, local);
    reveal(Arbiter::refresh);
    let b = a.account(now, local).after;
    let l = b.relink(now).after;
    let changed = a.link != Some(b.link_at(now));
    if a.cfg.mode != Mode::Off {
        lemma_drive_frame(l, now, local, changed);
        let e = l.end_hold().after;
        let mut g = e;
        if local is Some {
            let wanted = wishes(e, local->0);
            let apply = e.link == Some(Link::OfflineSchedule) && e.cfg.mode == Mode::Auto;
            lemma_follow_on(e, wanted, apply, changed, now, CHANNELS as nat);
            lemma_follow_frame(e, wanted, apply, changed, now, CHANNELS as nat);
            g = e.follow(wanted, apply, changed, now, CHANNELS as nat).after;
        }
        lemma_hold_safe_on(g, now, CHANNELS as nat);
        assert(!b.relays[ch]);
    }
}

// ----- going offline -------------------------------------------------------------------------------

proof fn lemma_follow_snap(a: Arbiter, wanted: Seq<bool>, now: u64, n: nat)
    requires
        a.obeys(),
        !a.cfg.exclusive,
        n <= CHANNELS,
    ensures
        forall|i: int|
            #![trigger a.follow(wanted, true, true, now, n).after.relays[i]]
            0 <= i < CHANNELS ==> a.follow(wanted, true, true, now, n).after.relays[i] == (if i
                < n {
                wanted[i] && !a.capped[i]
            } else {
                a.relays[i]
            }),
        forall|i: int|
            #![trigger a.follow(wanted, true, true, now, n).after.timers[i]]
            0 <= i < CHANNELS && a.follow(wanted, true, true, now, n).after.relays[i] ==> a.follow(
                wanted,
                true,
                true,
                now,
                n,
            ).after.timers[i] == (if a.relays[i] {
                a.timers[i]
            } else {
                Some(now)
            }),
    decreases n,
{
    if n > 0 {
        let m = (n - 1) as nat;
        lemma_follow_snap(a, wanted, now, m);
        lemma_follow_frame(a, wanted, true, true, now, m);
        let b = a.follow(wanted, true, true, now, m).after;
        let c = if b.sched_prev[m as int] != Some(wanted[m as int]) {
            Arbiter { sched_prev: b.sched_prev.update(m as int, Some(wanted[m as int])), ..b }
        } else {
            b
        };
        lemma_switch_on(c, m as int, wanted[m as int], now, false);
        arbiter::lemma_switch_frame(c, m as int, wanted[m as int], now, false);
        if wanted[m as int] && c.capped[m as int] {
            reveal(Arbiter::switch);
        }
        let f = a.follow(wanted, true, true, now, n).after;
        assert(f == c.switch(m as int, wanted[m as int], now, false).after);
        assert(b.relays[m as int] == a.relays[m as int]);
        assert(a.capped[m as int] == c.capped[m as int]);
    }
}

impl Arbiter {
    /// What the schedule last wanted is not known of any channel, so that all of it is applied
    /// as soon as it may be.
    pub open spec fn schedule_due(self) -> bool {
        self.sched_prev == arbiter::all_unset()
    }
}

/// Looked at afresh, every channel follows the schedule as if the link had just changed.
proof fn lemma_follow_due(
    a: Arbiter,
    wanted: Seq<bool>,
    apply: bool,
    snap: bool,
    now: u64,
    n: nat,
)
    requires
        a.shaped(),
        n <= CHANNELS,
        a.schedule_due(),
    ensures
        a.follow(wanted, apply, snap, now, n) == a.follow(wanted, apply, true, now, n),
    decreases n,
{
    if n > 0 {
        let m = (n - 1) as nat;
        lemma_follow_due(a, wanted, apply, snap, now, m);
        lemma_follow_frame(a, wanted, apply, true, now, m);
        let b = a.follow(wanted, apply, true, now, m).after;
        assert(b.sched_prev[m as int] == a.sched_prev[m as int]);
    }
}

/// When HA goes away in mode `Auto`, every relay snaps to what the stored schedule wants at that
/// moment (without the interlock, which leaves at most one of them on). The exceptions are the
/// budget and the maximum on-time. The same happens whenever the schedule is due.
pub proof fn law_going_offline_snaps_to_the_schedule(a: Arbiter, now: u64, t: LocalTime, ch: int)
    requires
        a.obeys(),
        a.cfg.mode == Mode::Auto,
        !a.cfg.exclusive,
        a.link != Some(Link::OfflineSchedule) || a.schedule_due(),
        a.refresh(now, Some(t)).after.link == Some(Link::OfflineSchedule),
        0 <= ch < CHANNELS,
    ensures
        ({
            let b = a.account(now, Some(t)).after;
            let f = a.refresh(now, Some(t)).after;
            f.relays[ch] == (f.wanted(ch, t) && !b.capped[ch] && !(b.relays[ch] && b.overdue(
                now,
                ch,
            )))
        }),
{
    lemma_refresh_frame(a, now, Some(t));
    rules::lemma_sound_account(a, now, Some(t));
    reveal(Arbiter::refresh);
    let b = a.account(now, Some(t)).after;
    let l = b.relink(now).after;
    let e = l.end_hold().after;
    let changed = a.link != Some(b.link_at(now));
    let wanted = wishes(e, t);
    if !changed {
        assert(l.sched_prev =~= arbiter::all_unset());
        lemma_follow_due(e, wanted, true, changed, now, CHANNELS as nat);
    }
    lemma_follow_snap(e, wanted, now, CHANNELS as nat);
    lemma_follow_frame(e, wanted, true, true, now, CHANNELS as nat);
    let g = e.follow(wanted, true, true, now, CHANNELS as nat).after;
    assert(l.drive(now, Some(t), changed).after == g);
    let f = g.trip(now).after;
    assert(g.relays[ch] ==> g.timers[ch] == (if e.relays[ch] {
        e.timers[ch]
    } else {
        Some(now)
    }));
    assert(f.relays[ch] == (g.relays[ch] && !g.overdue(now, ch)));
}

/// When HA goes away and no local time is at hand, the schedule is due.
pub proof fn law_going_offline_makes_the_schedule_due(a: Arbiter, now: u64)
    requires
        a.shaped(),
        a.cfg.mode != Mode::Off,
        a.link != Some(Link::OfflineSchedule),
        a.refresh(now, None).after.link == Some(Link::OfflineSchedule),
    ensures
        a.refresh(now, None).after.schedule_due(),
{
    lemma_refresh_frame(a, now, None);
    reveal(Arbiter::refresh);
}

/// Without a local time a refresh leaves the schedule due.
pub proof fn lemma_refresh_stays_due(a: Arbiter, now: u64)
    requires
        a.shaped(),
        a.schedule_due(),
    ensures
        a.refresh(now, None).after.schedule_due(),
{
    reveal(Arbiter::refresh);
    let b = a.account(now, None).after;
    let l = b.relink(now).after;
    let e = l.end_hold().after;
    let p = e.postpone(a.link != Some(b.link_at(now)));
    assert(p.schedule_due());
    lemma_hold_safe_frame(p, now, CHANNELS as nat);
}

proof fn lemma_hold_safe_snap(a: Arbiter, now: u64, n: nat)
    requires
        a.obeys(),
        !a.cfg.exclusive,
        n <= CHANNELS,
    ensures
        forall|i: int|
            #![trigger a.hold_safe(now, n).after.relays[i]]
            0 <= i < CHANNELS ==> a.hold_safe(now, n).after.relays[i] == (if i < n {
                a.cfg.channels[i].safe_state && !a.capped[i]
            } else {
                a.relays[i]
            }),
        forall|i: int|
            #![trigger a.hold_safe(now, n).after.timers[i]]
            0 <= i < CHANNELS && a.hold_safe(now, n).after.relays[i] ==> a.hold_safe(
                now,
                n,
            ).after.timers[i] == (if a.relays[i] {
                a.timers[i]
            } else {
                Some(now)
            }),
    decreases n,
{
    if n > 0 {
        let m = (n - 1) as nat;
        lemma_hold_safe_snap(a, now, m);
        lemma_hold_safe_frame(a, now, m);
        let b = a.hold_safe(now, m).after;
        let on = a.cfg.channels[m as int].safe_state;
        lemma_switch_on(b, m as int, on, now, false);
        arbiter::lemma_switch_frame(b, m as int, on, now, false);
        if on && b.capped[m as int] {
            reveal(Arbiter::switch);
        }
        assert(b.relays[m as int] == a.relays[m as int]);
    }
}

/// When HA goes away and the time is not known, every relay goes to its safe state (without the
/// interlock, which leaves at most one of them on). The exceptions are the budget and the
/// maximum on-time.
pub proof fn law_without_the_time_the_safe_state_holds(a: Arbiter, now: u64, ch: int)
    requires
        a.obeys(),
        a.cfg.mode != Mode::Off,
        !a.cfg.exclusive,
        a.link != Some(Link::OfflineUnknownTime),
        a.refresh(now, None).after.link == Some(Link::OfflineUnknownTime),
        0 <= ch < CHANNELS,
    ensures
        ({
            let b = a.account(now, None).after;
            let f = a.refresh(now, None).after;
            f.relays[ch] == (a.cfg.channels[ch].safe_state && !b.capped[ch] && !(b.relays[ch]
                && b.overdue(now, ch)))
        }),
{
    lemma_refresh_frame(a, now, None);
    rules::lemma_sound_account(a, now, None);
    reveal(Arbiter::refresh);
    let b = a.account(now, None).after;
    let l = b.relink(now).after;
    let e = l.end_hold().after;
    lemma_hold_safe_snap(e, now, CHANNELS as nat);
    lemma_hold_safe_frame(e, now, CHANNELS as nat);
    let g = e.hold_safe(now, CHANNELS as nat).after;
    assert(l.drive(now, None, true).after == g);
    assert(g.relays[ch] ==> g.timers[ch] == (if e.relays[ch] {
        e.timers[ch]
    } else {
        Some(now)
    }));
    assert(g.trip(now).after.relays[ch] == (g.relays[ch] && !g.overdue(now, ch)));
}

// ----- between the edges ---------------------------------------------------------------------------

proof fn lemma_follow_quiet(a: Arbiter, wanted: Seq<bool>, apply: bool, now: u64, n: nat)
    requires
        n <= CHANNELS,
        forall|i: int| 0 <= i < n ==> #[trigger] a.sched_prev[i] == Some(wanted[i]),
    ensures
        a.follow(wanted, apply, false, now, n) == arbiter::stay(a),
    decreases n,
{
    if n > 0 {
        lemma_follow_quiet(a, wanted, apply, now, (n - 1) as nat);
        assert(a.sched_prev[n - 1] == Some(wanted[n - 1]));
        assert(Seq::<Action>::empty() + Seq::<Action>::empty() =~= Seq::<Action>::empty());
    }
}

proof fn lemma_drive_quiet(a: Arbiter, now: u64, local: Option<LocalTime>)
    requires
        a.shaped(),
        a.cfg.rain_hold_until == 0 || a.held(),
        local is Some ==> forall|i: int|
            0 <= i < CHANNELS ==> #[trigger] a.sched_prev[i] == Some(a.wanted(i, local->0)),
    ensures
        a.drive(now, local, false) == arbiter::stay(a),
{
    if local is Some {
        let apply = a.link == Some(Link::OfflineSchedule) && a.cfg.mode == Mode::Auto;
        let wanted = wishes(a, local->0);
        assert forall|i: int| 0 <= i < CHANNELS implies #[trigger] a.sched_prev[i] == Some(
            wanted[i],
        ) by {}
        lemma_follow_quiet(a, wanted, apply, now, CHANNELS as nat);
    }
    assert(Seq::<Action>::empty() + Seq::<Action>::empty() =~= Seq::<Action>::empty());
}

/// Between block boundaries, and while the link stays as it is, a tick leaves the relays alone
/// but for the budget and the maximum on-time: a local override, or a trip of the safeguard, is
/// not undone before the next boundary.
pub proof fn law_overrides_last_until_the_next_edge(
    a: Arbiter,
    now: u64,
    local: Option<LocalTime>,
    ch: int,
)
    requires
        a.shaped(),
        0 <= ch < CHANNELS,
        // no boundary, no midnight, no change of the hold or the link
        a.link == Some(a.link_at(now)),
        a.cfg.rain_hold_until == 0 || a.held(),
        !a.new_day(local),
        local is Some ==> forall|i: int|
            0 <= i < CHANNELS ==> #[trigger] a.sched_prev[i] == Some(a.wanted(i, local->0)),
    ensures
        a.refresh(now, local).after.relays[ch] == (a.relays[ch] && !a.reaches_cap(now, ch)
            && !a.overdue(now, ch)),
{
    reveal(Arbiter::refresh);
    let b = a.account(now, local).after;
    let l = b.relink(now).after;
    assert(b.link_at(now) == a.link_at(now));
    if a.cfg.mode != Mode::Off {
        if local is Some {
            assert forall|i: int| 0 <= i < CHANNELS implies #[trigger] l.sched_prev[i] == Some(
                l.wanted(i, local->0),
            ) by {
                assert(l.sched_prev[i] == a.sched_prev[i]);
                assert(l.wanted(i, local->0) == a.wanted(i, local->0));
            }
        }
        lemma_drive_quiet(l, now, local);
    }
    assert(l.timers[ch] == (if a.reaches_cap(now, ch) {
        None
    } else {
        a.timers[ch]
    }));
}

/// A second tick at the same moment finds nothing to do, provided the relays that are on have
/// budget left.
pub proof fn law_tick_settles(a: Arbiter, now: u64, local: Option<LocalTime>)
    requires
        a.obeys(),
        forall|ch: int|
            0 <= ch < CHANNELS && #[trigger] a.refresh(now, local).after.relays[ch] ==> {
                let f = a.refresh(now, local).after;
                f.cap(ch) == 0 || f.on_today_ms[ch] < f.cap(ch)
            },
    ensures
        a.refresh(now, local).after.refresh(now, local) == arbiter::stay(
            a.refresh(now, local).after,
        ),
{
    let c = a.refresh(now, local).after;
    rules::lemma_sound_refresh(a, now, local);
    lemma_refresh_frame(a, now, local);
    law_tick_ends_overlong_runs(a, now, local);
    let b0 = a.account(now, local).after;
    let l0 = b0.relink(now).after;
    lemma_drive_frame(l0, now, local, a.link != Some(b0.link_at(now)));
    // booking
    assert(c.roll(local) =~= arbiter::stay(c));
    lemma_book_quiet(c, now, CHANNELS as nat);
    assert(c.book(now).after =~= c);
    assert(c.account(now, local) =~= arbiter::stay(c));
    // link
    assert(c.relink(now) =~= arbiter::stay(c));
    // schedule
    if a.cfg.mode != Mode::Off {
        lemma_prev_known(a, now, local);
        lemma_drive_quiet(c, now, local);
    }
    // safeguard
    assert forall|ch: int| 0 <= ch < CHANNELS implies !#[trigger] c.overdue(now, ch) by {
        if !c.relays[ch] {
            assert(!(c.timers[ch] is Some));
        }
    }
    lemma_trip_quiet(c, now, CHANNELS as nat);
    assert(c.trip(now).after =~= c);
    reveal(Arbiter::refresh);
    assert(Seq::<Action>::empty() + Seq::<Action>::empty() =~= Seq::<Action>::empty());
}

proof fn lemma_prev_known(a: Arbiter, now: u64, local: Option<LocalTime>)
    requires
        a.shaped(),
        a.cfg.mode != Mode::Off,
    ensures
        ({
            let c = a.refresh(now, local).after;
            &&& c.cfg.rain_hold_until == 0 || c.held()
            &&& local is Some ==> forall|i: int|
                0 <= i < CHANNELS ==> #[trigger] c.sched_prev[i] == Some(c.wanted(i, local->0))
        }),
{
    reveal(Arbiter::refresh);
    let b = a.account(now, local).after;
    let l = b.relink(now).after;
    let changed = a.link != Some(b.link_at(now));
    lemma_drive_frame(l, now, local, changed);
    let e = l.end_hold().after;
    let c = a.refresh(now, local).after;
    assert(c.cfg == e.cfg && c.epoch == e.epoch && c.schedule == e.schedule);
    if local is Some {
        assert forall|i: int| 0 <= i < CHANNELS implies #[trigger] c.sched_prev[i] == Some(
            c.wanted(i, local->0),
        ) by {
            assert(e.wanted(i, local->0) == c.wanted(i, local->0));
            assert(wishes(e, local->0)[i] == e.wanted(i, local->0));
        }
    }
}

/// What the schedule wants after a refresh is what it wanted while relays followed it.
pub proof fn lemma_hold_after(a: Arbiter, now: u64, local: Option<LocalTime>)
    requires
        a.shaped(),
        a.cfg.mode != Mode::Off,
    ensures
        ({
            let e = a.account(now, local).after.relink(now).after.end_hold().after;
            let f = a.refresh(now, local).after;
            f.cfg == e.cfg && f.epoch == e.epoch && f.schedule == e.schedule
        }),
{
    reveal(Arbiter::refresh);
    let b = a.account(now, local).after;
    lemma_drive_frame(b.relink(now).after, now, local, a.link != Some(b.link_at(now)));
}

proof fn lemma_book_quiet(a: Arbiter, now: u64, n: nat)
    requires
        a.shaped(),
        n <= CHANNELS,
        a.last_account_ms == Some(now),
        forall|ch: int|
            0 <= ch < CHANNELS && #[trigger] a.relays[ch] ==> a.cap(ch) == 0 || a.on_today_ms[ch]
                < a.cap(ch),
    ensures
        a.book_reports(now, n) == Seq::<Action>::empty(),
    decreases n,
{
    if n > 0 {
        lemma_book_quiet(a, now, (n - 1) as nat);
        assert(safeguard::elapsed(now, now) == 0);
        assert(a.book_report(now, n - 1) =~= Seq::<Action>::empty());
        assert(Seq::<Action>::empty() + Seq::<Action>::empty() =~= Seq::<Action>::empty());
    }
}

proof fn lemma_trip_quiet(a: Arbiter, now: u64, n: nat)
    requires
        n <= CHANNELS,
        forall|ch: int| 0 <= ch < CHANNELS ==> !#[trigger] a.overdue(now, ch),
    ensures
        a.trip_reports(now, n) == Seq::<Action>::empty(),
    decreases n,
{
    if n > 0 {
        lemma_trip_quiet(a, now, (n - 1) as nat);
    }
}

// ----- what else stays -----------------------------------------------------------------------------

/// When HA comes back it takes over without disturbing the relays: those that are on stay on but
/// for the budget and the maximum on-time, and none goes on.
pub proof fn law_regaining_ha_keeps_the_relays(a: Arbiter, now: u64, ch: int)
    requires
        a.shaped(),
        0 <= ch < CHANNELS,
    ensures
        a.taken(Input::HaConnected { now }).after.link == Some(Link::Online),
        a.taken(Input::HaConnected { now }).after.relays[ch] == (a.relays[ch] && !a.reaches_cap(
            now,
            ch,
        ) && !a.overdue(now, ch)),
{
    let c = a.connected(now);
    lemma_refresh_frame(c, now, None);
    let b = c.account(now, None).after;
    let l = b.relink(now).after;
    assert(b.link_at(now) == Link::Online);
    let d = driven(c, now, None);
    assert(d.relays == l.relays && d.timers == l.timers && d.limits == a.limits);
    assert(l.relays[ch] == (a.relays[ch] && !a.reaches_cap(now, ch)));
    assert(l.timers[ch] == (if a.reaches_cap(now, ch) {
        None
    } else {
        a.timers[ch]
    }));
}

/// The emergency stop turns every relay off, in every mode.
pub proof fn law_all_off_stops_everything(a: Arbiter, now: u64)
    ensures
        forall|ch: int|
            0 <= ch < CHANNELS ==> !#[trigger] a.taken(Input::AllOff { now }).after.relays[ch],
{
}

/// In mode `Off` everything is off and stays off, whatever is asked, until the mode is changed.
pub proof fn law_mode_off_ignores_everyone(a: Arbiter, input: Input, ch: int)
    requires
        a.obeys(),
        a.takes(input),
        a.cfg.mode == Mode::Off,
        !(input is SetMode),
        0 <= ch < CHANNELS,
    ensures
        a.taken(input).after.cfg.mode == Mode::Off,
        !a.taken(input).after.relays[ch],
{
    lemma_mode_kept(a, input);
    rules::law_inputs_keep_the_rules(a, input);
}

proof fn lemma_refresh_mode(a: Arbiter, now: u64, local: Option<LocalTime>)
    requires
        a.shaped(),
    ensures
        a.refresh(now, local).after.cfg.mode == a.cfg.mode,
        a.refresh(now, local).after.shaped(),
{
    lemma_refresh_frame(a, now, local);
}

proof fn lemma_mode_kept(a: Arbiter, input: Input)
    requires
        a.shaped(),
        !(input is SetMode),
    ensures
        a.taken(input).after.cfg.mode == a.cfg.mode,
{
    match input {
        Input::HaConnected { now } => {
            lemma_refresh_mode(a.connected(now), now, None);
        },
        Input::HaDisconnected { now, local } => {
            lemma_refresh_mode(a.disconnected(), now, local);
        },
        Input::HaSeen { now } => {
            lemma_refresh_mode(a.seen(now), now, None);
        },
        Input::HaOffline { now, local } => {
            lemma_refresh_mode(a.declared_offline(), now, local);
        },
        Input::TimeKnown { now, at } => {
            lemma_refresh_mode(a.with_time_known(), now, Some(at));
        },
        Input::HaCommand { ch, on, now } => {
            lemma_refresh_mode(a.seen(now), now, None);
            if ch < CHANNELS {
                let s = a.seen(now).refresh(now, None).after;
                arbiter::lemma_switch_frame(s, ch as int, on, now, true);
            }
        },
        Input::LocalCommand { ch, on, now } => {
            if ch < CHANNELS {
                arbiter::lemma_switch_frame(a, ch as int, on, now, false);
            }
        },
        Input::SetSchedule { schedule, now, local } => {
            lemma_refresh_mode(a.with_schedule(schedule), now, local);
        },
        Input::SetSafeState { ch, on, now } => {
            lemma_refresh_mode(a.with_safe_state(ch, on), now, None);
        },
        Input::SetRainHold { hours, now, local } => {
            lemma_refresh_mode(a.with_rain_hold(hours), now, local);
        },
        Input::SetGrace { secs, now, local } => {
            lemma_refresh_mode(a.with_grace(secs), now, local);
        },
        Input::Tick { now, local } => {
            lemma_refresh_mode(a, now, local);
        },
        _ => {},
    }
}

/// A schedule that wants nothing, and is looked at afresh, turns relays off.
proof fn lemma_follow_nothing(a: Arbiter, wanted: Seq<bool>, snap: bool, now: u64, n: nat)
    requires
        a.shaped(),
        n <= CHANNELS,
        forall|i: int| 0 <= i < CHANNELS ==> !#[trigger] wanted[i],
        forall|i: int| 0 <= i < CHANNELS ==> #[trigger] a.sched_prev[i] is None,
    ensures
        a.follow(wanted, true, snap, now, n).after.shaped(),
        forall|i: int|
            0 <= i < n ==> !#[trigger] a.follow(wanted, true, snap, now, n).after.relays[i],
        forall|i: int|
            n <= i < CHANNELS ==> #[trigger] a.follow(
                wanted,
                true,
                snap,
                now,
                n,
            ).after.sched_prev[i] is None,
    decreases n,
{
    if n > 0 {
        let m = (n - 1) as nat;
        lemma_follow_nothing(a, wanted, snap, now, m);
        let b = a.follow(wanted, true, snap, now, m).after;
        assert(b.sched_prev[m as int] is None);
        let c = Arbiter { sched_prev: b.sched_prev.update(m as int, Some(false)), ..b };
        arbiter::lemma_switch_frame(c, m as int, false, now, false);
        lemma_switch_on(c, m as int, false, now, false);
        assert(a.follow(wanted, true, snap, now, n).after == c.switch(
            m as int,
            false,
            now,
            false,
        ).after);
    }
}

/// A rain hold that is set while the device follows its schedule turns the relays off at once.
pub proof fn law_a_rain_hold_turns_the_relays_off(
    a: Arbiter,
    hours: u32,
    now: u64,
    t: LocalTime,
    ch: int,
)
    requires
        a.shaped(),
        a.cfg.mode == Mode::Auto,
        hours > 0,
        a.epoch is Some,
        a.hold_end(hours) <= u64::MAX,
        a.link_at(now) == Link::OfflineSchedule,
        0 <= ch < CHANNELS,
    ensures
        ({
            let f = a.taken(Input::SetRainHold { hours, now, local: Some(t) }).after;
            f.held() && !f.relays[ch]
        }),
{
    let c = a.with_rain_hold(hours);
    lemma_refresh_frame(c, now, Some(t));
    let b = c.account(now, Some(t)).after;
    let l = b.relink(now).after;
    let changed = c.link != Some(b.link_at(now));
    assert(c.held() && l.held());
    assert(b.link_at(now) == Link::OfflineSchedule);
    let wanted = wishes(l, t);
    assert forall|i: int| 0 <= i < CHANNELS implies #[trigger] l.sched_prev[i] is None by {
        assert(c.sched_prev[i] is None);
    }
    lemma_follow_nothing(l, wanted, changed, now, CHANNELS as nat);
    lemma_drive_frame(l, now, Some(t), changed);
    let d = driven(c, now, Some(t));
    assert(d.relays == l.follow(wanted, true, changed, now, CHANNELS as nat).after.relays);
}

/// Only a new schedule replaces the stored one.
pub proof fn law_only_a_new_schedule_replaces_the_old(a: Arbiter, input: Input)
    requires
        a.shaped(),
    ensures
        a.taken(input).after.schedule == (match input {
            Input::SetSchedule { schedule, now, local } => schedule,
            _ => a.schedule,
        }),
{
    match input {
        Input::HaConnected { now } => {
            lemma_refresh_frame(a.connected(now), now, None);
        },
        Input::HaDisconnected { now, local } => {
            lemma_refresh_frame(a.disconnected(), now, local);
        },
        Input::HaSeen { now } => {
            lemma_refresh_frame(a.seen(now), now, None);
        },
        Input::HaOffline { now, local } => {
            lemma_refresh_frame(a.declared_offline(), now, local);
        },
        Input::TimeKnown { now, at } => {
            lemma_refresh_frame(a.with_time_known(), now, Some(at));
        },
        Input::HaCommand { ch, on, now } => {
            lemma_refresh_frame(a.seen(now), now, None);
            if ch < CHANNELS {
                let s = a.seen(now).refresh(now, None).after;
                arbiter::lemma_switch_frame(s, ch as int, on, now, true);
            }
        },
        Input::LocalCommand { ch, on, now } => {
            if ch < CHANNELS {
                arbiter::lemma_switch_frame(a, ch as int, on, now, false);
            }
        },
        Input::SetSchedule { schedule, now, local } => {
            lemma_refresh_frame(a.with_schedule(schedule), now, local);
        },
        Input::SetSafeState { ch, on, now } => {
            lemma_refresh_frame(a.with_safe_state(ch, on), now, None);
        },
        Input::SetRainHold { hours, now, local } => {
            lemma_refresh_frame(a.with_rain_hold(hours), now, local);
        },
        Input::SetGrace { secs, now, local } => {
            lemma_refresh_frame(a.with_grace(secs), now, local);
        },
        Input::SetMode { mode, now, local } => {
            let b = a.mode_set(mode);
            lemma_refresh_frame(b.drop_to(arbiter::all_false()).after, now, local);
            lemma_refresh_frame(b, now, local);
        },
        Input::Tick { now, local } => {
            lemma_refresh_frame(a, now, local);
        },
        _ => {},
    }
}

/// A refresh keeps one entry per channel everywhere.
pub proof fn lemma_refresh_shaped(a: Arbiter, now: u64, local: Option<LocalTime>)
    requires
        a.shaped(),
    ensures
        a.refresh(now, local).after.shaped(),
{
    lemma_refresh_frame(a, now, local);
}

/// Once on-time has been booked up to now, the counters have room for it.
pub proof fn lemma_booked_has_room(a: Arbiter, now: u64, local: Option<LocalTime>)
    requires
        a.shaped(),
    ensures
        a.refresh(now, local).after.can_book(now),
{
    lemma_refresh_frame(a, now, local);
}

/// Room for the time up to now is room whatever day it is.
pub proof fn lemma_room_any_day(a: Arbiter, now: u64, local: Option<LocalTime>)
    requires
        a.can_book(now),
    ensures
        a.fits(now, local),
{
    let r = a.roll(local).after;
    assert forall|i: int| 0 <= i < CHANNELS && #[trigger] r.relays[i] implies r.on_today_ms[i]
        + r.unbooked(now) <= u64::MAX && r.total_ms[i] + r.unbooked(now) <= u64::MAX by {
        assert(a.relays[i]);
        assert(a.on_today_ms[i] + a.unbooked(now) <= u64::MAX);
        if a.new_day(local) {
            assert(r.on_today_ms[i] == 0);
        }
    }
}

} // verus!
