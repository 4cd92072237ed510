//! Relay arbiter. Decides who controls the relays (Home Assistant or the stored schedule),
//! enforces the max-on-time safeguard, and reports what the firmware must do as [`Action`]s.
//!
//! The firmware owns all I/O. It calls the `on_*` methods when things happen and
//! [`Controller::tick`] about once a second with the monotonic clock and, if known, the
//! local wall-clock time. Every method returns the actions to apply, in order.
//!
//! What each method does is stated over the state machine in [`crate::arbiter`].

use vstd::prelude::*;

use crate::arbiter;
use crate::arbiter::{Action, Arbiter, Link};
use crate::board::CHANNELS;
use crate::config::{Config, Mode};
use crate::safeguard;
use crate::safeguard::Safeguard;
use crate::schedule::{LocalTime, Schedule};

verus! {

#[derive(Debug)]
pub struct Controller {
    cfg: Config,
    schedule: Schedule,
    safeguard: Safeguard,
    relays: [bool; CHANNELS],
    sched_prev: [Option<bool>; CHANNELS],
    ha_connected: bool,
    ha_declared_offline: bool,
    last_ha_seen_ms: Option<u64>,
    time_known: bool,
    link: Option<Link>,
    /// Current Unix time in seconds, if known (fed by the firmware on every tick).
    epoch: Option<u64>,
    on_today_ms: [u64; CHANNELS],
    total_ms: [u64; CHANNELS],
    capped: [bool; CHANNELS],
    today: Option<u32>,
    last_account_ms: Option<u64>,
}

/// Snapshot of the on-time counters, persisted by the firmware.
#[derive(Debug, Clone, Copy, PartialEq, Eq)]
pub struct Usage {
    /// Local day key the `on_today_ms` counters belong to (0 = unknown).
    pub day: u32,
    pub on_today_ms: [u64; CHANNELS],
    pub total_ms: [u64; CHANNELS],
}

impl Default for Usage {
    fn default() -> (r: Self)
        ensures
            r.day == 0,
            r.on_today_ms@ == arbiter::all_zero(),
            r.total_ms@ == arbiter::all_zero(),
    {
        let r = Usage { day: 0, on_today_ms: [0;CHANNELS], total_ms: [0;CHANNELS] };
        assert(r.on_today_ms@ =~= arbiter::all_zero());
        assert(r.total_ms@ =~= arbiter::all_zero());
        r
    }
}

impl View for Controller {
    type V = Arbiter;

    closed spec fn view(&self) -> Arbiter {
        Arbiter {
            cfg: self.cfg@,
            schedule: self.schedule,
            limits: self.safeguard.limits(),
            timers: self.safeguard.timers(),
            relays: self.relays@,
            sched_prev: self.sched_prev@,
            ha_connected: self.ha_connected,
            ha_declared_offline: self.ha_declared_offline,
            last_ha_seen_ms: self.last_ha_seen_ms,
            time_known: self.time_known,
            link: self.link,
            epoch: self.epoch,
            on_today_ms: self.on_today_ms@,
            total_ms: self.total_ms@,
            capped: self.capped@,
            today: self.today,
            last_account_ms: self.last_account_ms,
        }
    }
}

impl Controller {
    pub fn new(cfg: Config, schedule: Schedule) -> (r: Controller)
        ensures
            r@ == arbiter::started(cfg@, schedule),
    {
        let mut max_on: [u16; CHANNELS] = [0;CHANNELS];
        let mut i: usize = 0;
        while i < CHANNELS
            invariant
                i <= CHANNELS,
                forall|j: int| 0 <= j < i ==> max_on@[j] == cfg.channels@[j].max_on_min,
            decreases CHANNELS - i,
        {
            max_on[i] = cfg.channels[i].max_on_min;
            i += 1;
        }
        let r = Controller {
            cfg,
            schedule,
            safeguard: Safeguard::new(max_on),
            relays: [false;CHANNELS],
            sched_prev: [None;CHANNELS],
            ha_connected: false,
            ha_declared_offline: false,
            last_ha_seen_ms: None,
            time_known: false,
            link: None,
            epoch: None,
            on_today_ms: [0;CHANNELS],
            total_ms: [0;CHANNELS],
            capped: [false;CHANNELS],
            today: None,
            last_account_ms: None,
        };
        assert(r@ =~= arbiter::started(cfg@, schedule));
        r
    }

    /// The state has one entry per channel everywhere.
    pub proof fn lemma_shaped(&self)
        ensures
            self@.shaped(),
    {
        self.safeguard.lemma_lengths();
    }

    /// `restart_timer` restarts the safeguard on a repeated ON command (HA re-sending ON
    /// means "I still want this on", so give it a fresh window).
    fn set_relay(
        &mut self,
        ch: usize,
        on: bool,
        now_ms: u64,
        out: &mut Vec<Action>,
        restart_timer: bool,
    )
        requires
            ch < CHANNELS,
        ensures
            final(self)@ == old(self)@.switch(ch as int, on, now_ms, restart_timer).after,
            final(out)@ == old(out)@ + old(self)@.switch(
                ch as int,
                on,
                now_ms,
                restart_timer,
            ).actions,
    {
        let ghost a = self@;
        let ghost said = out@;
        proof {
            self.lemma_shaped();
            reveal(Arbiter::switch);
        }
        if on && self.capped[ch] {
            assert(out@ =~= said + arbiter::stay(a).actions);
            return ;  // daily cap reached: stays off until midnight, whoever asks
        }
        let ghost quiet = if on && a.cfg.exclusive {
            a.interlocked(ch as int)
        } else {
            a.relays
        };
        if on && self.cfg.exclusive {
            // Interlock: others off before this one goes on (break-before-make).
            let mut other: usize = 0;
            while other < CHANNELS
                invariant
                    other <= CHANNELS,
                    ch < CHANNELS,
                    a.shaped(),
                    quiet == a.interlocked(ch as int),
                    self@ == (Arbiter { relays: self@.relays, timers: self@.timers, ..a }),
                    self@.relays.len() == CHANNELS,
                    self@.timers.len() == CHANNELS,
                    forall|i: int|
                        0 <= i < CHANNELS ==> #[trigger] self@.relays[i] == (if i < other {
                            quiet[i]
                        } else {
                            a.relays[i]
                        }),
                    forall|i: int|
                        0 <= i < CHANNELS ==> #[trigger] self@.timers[i] == (if i < other
                            && a.relays[i] && !quiet[i] {
                            None
                        } else {
                            a.timers[i]
                        }),
                    out@ == said + arbiter::turned_off(a.relays, quiet, other as nat),
                decreases CHANNELS - other,
            {
                if other != ch && self.relays[other] {
                    self.relays[other] = false;
                    self.safeguard.relay_changed(other, false, now_ms);
                    out.push(Action::SetRelay { ch: other, on: false });
                }
                other += 1;
            }
            assert(self@.relays =~= quiet);
        } else {
            proof {
                arbiter::lemma_turned_off_same(a.relays, a.relays, CHANNELS as nat);
            }
        }
        let ghost timers = arbiter::stopped(a.timers, a.relays, quiet);
        let ghost first = arbiter::turned_off(a.relays, quiet, CHANNELS as nat);
        assert(self@.timers =~= timers);
        assert(out@ =~= said + first);
        if self.relays[ch] == on {
            if on && restart_timer {
                self.safeguard.relay_changed(ch, true, now_ms);
            }
            assert(self@ =~= a.switch(ch as int, on, now_ms, restart_timer).after);
            return ;
        }
        self.relays[ch] = on;
        self.safeguard.relay_changed(ch, on, now_ms);
        out.push(Action::SetRelay { ch, on });
        assert(self@ =~= a.switch(ch as int, on, now_ms, restart_timer).after);
        assert(out@ =~= said + first.push(Action::SetRelay { ch, on }));
    }

    fn poll_safeguard(&mut self, now_ms: u64) -> (out: Vec<Action>)
        ensures
            final(self)@ == old(self)@.trip(now_ms).after,
            out@ == old(self)@.trip(now_ms).actions,
    {
        let ghost a = self@;
        proof {
            self.lemma_shaped();
            safeguard::law_expired_lists_exactly_the_tripped(a.limits, a.timers, now_ms, CHANNELS as nat);
            assert(a =~= a.trip_below(now_ms, 0).after);
        }
        let mut out: Vec<Action> = Vec::new();
        let due = self.safeguard.expired(now_ms);
        let mut i: usize = 0;
        let ghost mut n: nat = 0;
        while i < due.len()
            invariant
                i <= due.len(),
                a.shaped(),
                forall|c: usize| #[trigger]
                    due@.contains(c) <==> (c < CHANNELS && a.overdue(now_ms, c as int)),
                forall|j: int, k: int| 0 <= j < k < due@.len() ==> due@[j] < due@[k],
                n == (if i == 0 {
                    0
                } else {
                    due@[i - 1] + 1
                }),
                n <= CHANNELS,
                self@ == a.trip_below(now_ms, n).after,
                out@ == a.trip_below(now_ms, n).actions,
            decreases due.len() - i,
        {
            let ch = due[i];
            let ghost b = self@;
            proof {
                assert(due@.contains(ch));
                assert forall|c: int| n <= c < ch implies !#[trigger] a.overdue(now_ms, c) by {
                    if a.overdue(now_ms, c) {
                        assert(due@.contains(c as usize));
                        let k = choose|k: int| 0 <= k < due@.len() && due@[k] == c as usize;
                        assert(due@[k] == c);
                    }
                }
                lemma_trip_gap(a, now_ms, n, ch as nat);
                arbiter::lemma_switch_off(b, ch as int, now_ms, false);
            }
            self.set_relay(ch, false, now_ms, &mut out, false);
            out.push(Action::SafeguardTripped { ch });
            proof {
                n = (ch + 1) as nat;
                assert(self@ =~= a.trip_below(now_ms, n).after);
                assert(out@ =~= a.trip_reports(now_ms, n));
            }
            i += 1;
        }
        proof {
            assert forall|c: int| n <= c < CHANNELS implies !#[trigger] a.overdue(now_ms, c) by {
                if a.overdue(now_ms, c) {
                    assert(due@.contains(c as usize));
                    let k = choose|k: int| 0 <= k < due@.len() && due@[k] == c as usize;
                    assert(due@[k] == c);
                }
            }
            lemma_trip_gap(a, now_ms, n, CHANNELS as nat);
        }
        out
    }

    fn compute_link(&self, now_ms: u64) -> (r: Link)
        ensures
            r == self@.link_at(now_ms),
    {
        let recent = match self.last_ha_seen_ms {
            Some(t) => now_ms.saturating_sub(t) < self.cfg.offline_grace_s as u64 * 1000,
            None => false,
        };
        let ha_alive = self.ha_connected && !self.ha_declared_offline && (
        self.cfg.offline_grace_s == 0 || recent);
        if ha_alive {
            Link::Online
        } else if self.time_known {
            Link::OfflineSchedule
        } else {
            Link::OfflineUnknownTime
        }
    }

    /// Roll the day at local midnight.
    fn roll_day(&mut self, local: Option<LocalTime>, out: &mut Vec<Action>)
        ensures
            final(self)@ == old(self)@.roll(local).after,
            final(out)@ == old(out)@ + old(self)@.roll(local).actions,
    {
        let ghost a = self@;
        let ghost said = out@;
        proof {
            self.lemma_shaped();
        }
        let t = match local {
            Some(t) => t,
            None => {
                assert(out@ =~= said + a.roll(local).actions);
                return ;
            },
        };
        let new_day = match self.today {
            Some(d) => d != t.day,
            None => false,
        };
        if new_day {
            self.on_today_ms = [0;CHANNELS];
            // Relays that were blocked by the cap re-evaluate their schedule from scratch:
            // a block refused yesterday may still be active and must now apply. Others keep
            // their state (a manual override is not cancelled by midnight).
            let mut ch: usize = 0;
            while ch < CHANNELS
                invariant
                    ch <= CHANNELS,
                    a.shaped(),
                    self@ == (Arbiter {
                        on_today_ms: self@.on_today_ms,
                        sched_prev: self@.sched_prev,
                        ..a
                    }),
                    self@.on_today_ms == [0u64;CHANNELS]@,
                    self@.sched_prev.len() == CHANNELS,
                    forall|i: int|
                        0 <= i < CHANNELS ==> #[trigger] self@.sched_prev[i] == (if i < ch
                            && a.capped[i] {
                            None
                        } else {
                            a.sched_prev[i]
                        }),
                decreases CHANNELS - ch,
            {
                if self.capped[ch] {
                    self.sched_prev[ch] = None;
                }
                ch += 1;
            }
            self.capped = [false;CHANNELS];
            out.push(Action::DayRolled);
            let ghost b = self@;
            let mut ch: usize = 0;
            assert(out@ =~= said + (seq![Action::DayRolled] + a.zero_usage(0)));
            while ch < CHANNELS
                invariant
                    ch <= CHANNELS,
                    a.shaped(),
                    self@ == b,
                    b.total_ms == a.total_ms,
                    out@ == said + (seq![Action::DayRolled] + a.zero_usage(ch as nat)),
                decreases CHANNELS - ch,
            {
                out.push(
                    Action::DailyUsage {
                        ch,
                        minutes: 0,
                        total_minutes: (self.total_ms[ch] / 60_000) as u32,
                    },
                );
                ch += 1;
                assert(out@ =~= said + (seq![Action::DayRolled] + a.zero_usage(ch as nat)));
            }
        } else {
            assert(out@ =~= said + a.roll(local).actions);
        }
        self.today = Some(t.day);
        assert(self@ =~= a.roll(local).after);
    }

    /// Book on-time since the last call, roll the day at local midnight, enforce daily caps.
    fn account(&mut self, now_ms: u64, local: Option<LocalTime>, out: &mut Vec<Action>)
        requires
            old(self)@.fits(now_ms, local),
        ensures
            final(self)@ == old(self)@.account(now_ms, local).after,
            final(out)@ == old(out)@ + old(self)@.account(now_ms, local).actions,
    {
        let ghost first = self@;
        let ghost said0 = out@;
        self.roll_day(local, out);
        let ghost a = self@;
        let ghost said = out@;
        proof {
            self.lemma_shaped();
        }
        let delta: u64 = match self.last_account_ms {
            Some(l) => now_ms.saturating_sub(l),
            None => 0,
        };
        self.last_account_ms = Some(now_ms);
        assert(self@ =~= a.book_below(now_ms, 0).after);
        assert(out@ =~= said + a.book_reports(now_ms, 0));
        let mut ch: usize = 0;
        while ch < CHANNELS
            invariant
                ch <= CHANNELS,
                a.shaped(),
                a.can_book(now_ms),
                delta == a.unbooked(now_ms),
                self@ == a.book_below(now_ms, ch as nat).after,
                out@ == said + a.book_reports(now_ms, ch as nat),
            decreases CHANNELS - ch,
        {
            let ghost b = self@;
            let ghost said1 = out@;
            if self.relays[ch] {
                assert(a.relays[ch as int]);
                let before_min = self.on_today_ms[ch] / 60_000;
                let before_total = self.total_ms[ch] / 60_000;
                let today_ms: u64 = self.on_today_ms[ch] + delta;
                let total_ms: u64 = self.total_ms[ch] + delta;
                self.on_today_ms[ch] = today_ms;
                self.total_ms[ch] = total_ms;
                if today_ms / 60_000 != before_min || total_ms / 60_000 != before_total {
                    out.push(
                        Action::DailyUsage {
                            ch,
                            minutes: (today_ms / 60_000) as u32,
                            total_minutes: (total_ms / 60_000) as u32,
                        },
                    );
                }
                let cap: u64 = self.cfg.channels[ch].max_daily_min as u64 * 60_000;
                if cap > 0 && today_ms >= cap {
                    self.capped[ch] = true;
                    let ghost c = self@;
                    let ghost said2 = out@;
                    proof {
                        arbiter::lemma_switch_off(c, ch as int, now_ms, false);
                    }
                    self.set_relay(ch, false, now_ms, out, false);
                    assert(out@ =~= said2.push(Action::SetRelay { ch, on: false }));
                    out.push(Action::DailyCapReached { ch });
                }
            }
            assert(out@ =~= said1 + a.book_report(now_ms, ch as int));
            ch += 1;
            assert(out@ =~= said + a.book_reports(now_ms, ch as nat));
            assert(self@ =~= a.book_below(now_ms, ch as nat).after);
        }
        assert(out@ =~= said0 + first.account(now_ms, local).actions);
    }

    /// Report schedule wishes (edge-triggered) and apply them if `apply`.
    fn follow_schedule(
        &mut self,
        wanted: [bool; CHANNELS],
        apply: bool,
        link_changed: bool,
        now_ms: u64,
        out: &mut Vec<Action>,
    )
        ensures
            final(self)@ == old(self)@.follow(
                wanted@,
                apply,
                link_changed,
                now_ms,
                CHANNELS as nat,
            ).after,
            final(out)@ == old(out)@ + old(self)@.follow(
                wanted@,
                apply,
                link_changed,
                now_ms,
                CHANNELS as nat,
            ).actions,
    {
        let ghost a = self@;
        let ghost said = out@;
        assert(out@ =~= said + a.follow(wanted@, apply, link_changed, now_ms, 0).actions);
        let mut ch: usize = 0;
        while ch < CHANNELS
            invariant
                ch <= CHANNELS,
                self@ == a.follow(wanted@, apply, link_changed, now_ms, ch as nat).after,
                out@ == said + a.follow(wanted@, apply, link_changed, now_ms, ch as nat).actions,
            decreases CHANNELS - ch,
        {
            let ghost b = self@;
            let ghost said1 = out@;
            let edge = self.sched_prev[ch] != Some(wanted[ch]);
            if edge {
                self.sched_prev[ch] = Some(wanted[ch]);
                out.push(Action::ScheduleWants { ch, on: wanted[ch] });
            }
            // On entering offline-schedule mode snap every channel to the schedule;
            // afterwards only follow schedule edges so a safeguard trip or a local
            // override is not undone until the next block boundary.
            if apply && (edge || link_changed) {
                self.set_relay(ch, wanted[ch], now_ms, out, false);
            }
            proof {
                let step = b.follow_one(ch as int, wanted@[ch as int], apply, link_changed, now_ms);
                assert(self@ =~= step.after);
                assert(out@ =~= said1 + step.actions);
            }
            ch += 1;
            assert(out@ =~= said + a.follow(
                wanted@,
                apply,
                link_changed,
                now_ms,
                ch as nat,
            ).actions);
        }
    }

    /// With no clock and no HA there is nothing sensible to do but hold the safe state.
    fn hold_safe_state(&mut self, now_ms: u64, out: &mut Vec<Action>)
        ensures
            final(self)@ == old(self)@.hold_safe(now_ms, CHANNELS as nat).after,
            final(out)@ == old(out)@ + old(self)@.hold_safe(now_ms, CHANNELS as nat).actions,
    {
        let ghost a = self@;
        let ghost said = out@;
        assert(out@ =~= said + a.hold_safe(now_ms, 0).actions);
        let mut ch: usize = 0;
        while ch < CHANNELS
            invariant
                ch <= CHANNELS,
                self@.cfg == a.cfg,
                self@ == a.hold_safe(now_ms, ch as nat).after,
                out@ == said + a.hold_safe(now_ms, ch as nat).actions,
            decreases CHANNELS - ch,
        {
            let ghost b = self@;
            let ghost said1 = out@;
            let on = self.cfg.channels[ch].safe_state;
            self.set_relay(ch, on, now_ms, out, false);
            proof {
                let step = b.switch(ch as int, on, now_ms, false);
                arbiter::lemma_switch_frame(b, ch as int, on, now_ms, false);
                assert(out@ =~= said1 + step.actions);
            }
            ch += 1;
            assert(out@ =~= said + a.hold_safe(now_ms, ch as nat).actions);
        }
    }

    /// Take over the link state that holds now. The result says whether it changed.
    fn relink(&mut self, now_ms: u64, out: &mut Vec<Action>) -> (changed: bool)
        ensures
            changed == (old(self)@.link != Some(old(self)@.link_at(now_ms))),
            final(self)@ == old(self)@.relink(now_ms).after,
            final(out)@ == old(out)@ + old(self)@.relink(now_ms).actions,
    {
        let ghost a = self@;
        let ghost said = out@;
        let new_link = self.compute_link(now_ms);
        let link_changed = self.link != Some(new_link);
        if link_changed {
            self.link = Some(new_link);
            out.push(Action::LinkChanged(new_link));
        }
        assert(self@ =~= a.relink(now_ms).after);
        assert(out@ =~= said + a.relink(now_ms).actions);
        link_changed
    }

    /// A hold that just expired must re-evaluate every channel, not wait for the next edge.
    fn end_hold(&mut self, out: &mut Vec<Action>)
        ensures
            final(self)@ == old(self)@.end_hold().after,
            final(out)@ == old(out)@ + old(self)@.end_hold().actions,
    {
        let ghost a = self@;
        let ghost said = out@;
        if self.cfg.rain_hold_until > 0 && !self.rain_hold_active() {
            self.cfg.rain_hold_until = 0;
            self.sched_prev = [None;CHANNELS];
            out.push(Action::RainHoldEnded);
        }
        assert(self@ =~= a.end_hold().after);
        assert(out@ =~= said + a.end_hold().actions);
    }

    /// Report schedule wishes (edge-triggered) and apply them when offline in Auto mode.
    /// During a rain hold the stored schedule counts as empty.
    fn drive(
        &mut self,
        now_ms: u64,
        local: Option<LocalTime>,
        link_changed: bool,
        out: &mut Vec<Action>,
    )
        ensures
            final(self)@ == old(self)@.drive(now_ms, local, link_changed).after,
            final(out)@ == old(out)@ + old(self)@.drive(now_ms, local, link_changed).actions,
    {
        let ghost said = out@;
        let ghost ended = self@.end_hold();
        self.end_hold(out);
        let ghost a = self@;
        let ghost mut followed = ended;
        let offline = self.link == Some(Link::OfflineSchedule);
        let unknown = self.link == Some(Link::OfflineUnknownTime);
        if let Some(t) = local {
            let wanted = if self.rain_hold_active() {
                [false;CHANNELS]
            } else {
                self.schedule.wanted(t)
            };
            let apply = offline && self.cfg.mode == Mode::Auto;
            self.follow_schedule(wanted, apply, link_changed, now_ms, out);
            proof {
                assert(wanted@ =~= Seq::new(CHANNELS as nat, |ch: int| a.wanted(ch, t)));
                followed =
                ended.and(a.follow(wanted@, apply, link_changed, now_ms, CHANNELS as nat));
            }
        } else {
            if offline && link_changed {
                // The schedule must apply on entering this mode: look at all of it afresh as
                // soon as the local time is at hand.
                self.sched_prev = [None;CHANNELS];
            }
            proof {
                assert(self@ =~= a.postpone(link_changed));
                followed = ended.and(arbiter::stay(a.postpone(link_changed)));
            }
        }
        assert(out@ =~= said + followed.actions);
        if unknown && link_changed {
            self.hold_safe_state(now_ms, out);
            assert(out@ =~= said + followed.and(
                followed.after.hold_safe(now_ms, CHANNELS as nat),
            ).actions);
        }
    }

    /// Re-evaluate link, schedule and safeguard. The heart of the arbiter.
    fn refresh(&mut self, now_ms: u64, local: Option<LocalTime>) -> (out: Vec<Action>)
        requires
            old(self)@.fits(now_ms, local),
        ensures
            final(self)@ == old(self)@.refresh(now_ms, local).after,
            out@ == old(self)@.refresh(now_ms, local).actions,
    {
        let ghost a = self@;
        let mut out: Vec<Action> = Vec::new();
        self.account(now_ms, local, &mut out);
        let link_changed = self.relink(now_ms, &mut out);
        proof {
            reveal(Arbiter::refresh);
            lemma_account_keeps(a, now_ms, local);
        }
        if self.cfg.mode != Mode::Off {
            self.drive(now_ms, local, link_changed, &mut out);
        }
        let mut tripped = self.poll_safeguard(now_ms);
        out.append(&mut tripped);
        proof {
            let booked = a.account(now_ms, local);
            let linked = booked.and(booked.after.relink(now_ms));
            assert(linked.after.cfg.mode == a.cfg.mode);
            assert(out@ =~= a.refresh(now_ms, local).actions);
        }
        out
    }

    pub fn rain_hold_active(&self) -> (r: bool)
        ensures
            r == self@.held(),
    {
        if self.cfg.rain_hold_until == 0 {
            return false;
        }
        match self.epoch {
            Some(e) => e < self.cfg.rain_hold_until,
            // Time unknown: assume the hold still stands rather than water into the rain.
            None => true,
        }
    }

    // ----- read-only accessors -------------------------------------------------------------

    pub fn config(&self) -> (r: &Config)
        ensures
            r@ == self@.cfg,
    {
        &self.cfg
    }

    pub fn schedule(&self) -> (r: &Schedule)
        ensures
            *r == self@.schedule,
    {
        &self.schedule
    }

    pub fn relays(&self) -> (r: [bool; CHANNELS])
        ensures
            r@ == self@.relays,
    {
        self.relays
    }

    pub fn link(&self) -> (r: Link)
        ensures
            r == self@.link_now(),
    {
        match self.link {
            Some(l) => l,
            None => Link::OfflineUnknownTime,
        }
    }

    pub fn time_known(&self) -> (r: bool)
        ensures
            r == self@.time_known,
    {
        self.time_known
    }

    /// Whole minutes each relay has been on so far today.
    pub fn on_today_min(&self) -> (r: [u32; CHANNELS])
        ensures
            r@ == self@.on_today_ms.map_values(|ms: u64| arbiter::minutes(ms)),
    {
        whole_minutes(self.on_today_ms)
    }

    /// Whole minutes each relay has been on in its lifetime (since the counters were last reset).
    pub fn total_min(&self) -> (r: [u32; CHANNELS])
        ensures
            r@ == self@.total_ms.map_values(|ms: u64| arbiter::minutes(ms)),
    {
        whole_minutes(self.total_ms)
    }

    pub fn usage(&self) -> (r: Usage)
        ensures
            r.day == (match self@.today {
                Some(d) => d,
                None => 0,
            }),
            r.on_today_ms@ == self@.on_today_ms,
            r.total_ms@ == self@.total_ms,
    {
        let day: u32 = match self.today {
            Some(d) => d,
            None => 0,
        };
        Usage { day, on_today_ms: self.on_today_ms, total_ms: self.total_ms }
    }

    /// Restore counters saved before a reboot. Today's counters are kept only if the saved day
    /// matches once the clock is known (checked in `account`); totals are always kept.
    pub fn restore_usage(&mut self, u: Usage)
        ensures
            final(self)@ == old(self)@.restored(u.day, u.on_today_ms@, u.total_ms@),
    {
        let ghost a = self@;
        proof {
            self.lemma_shaped();
        }
        self.total_ms = u.total_ms;
        self.on_today_ms = u.on_today_ms;
        self.today = if u.day != 0 {
            Some(u.day)
        } else {
            None
        };
        let ghost b = self@;
        let mut ch: usize = 0;
        while ch < CHANNELS
            invariant
                ch <= CHANNELS,
                b.cfg == a.cfg,
                b.on_today_ms == u.on_today_ms@,
                self@ == (Arbiter { capped: self@.capped, ..b }),
                self@.capped.len() == CHANNELS,
                forall|i: int|
                    0 <= i < ch ==> #[trigger] self@.capped[i] == (a.cap(i) > 0
                        && u.on_today_ms@[i] >= a.cap(i)),
            decreases CHANNELS - ch,
        {
            let cap: u64 = self.cfg.channels[ch].max_daily_min as u64 * 60_000;
            self.capped[ch] = cap > 0 && self.on_today_ms[ch] >= cap;
            ch += 1;
        }
        assert(self@ =~= a.restored(u.day, u.on_today_ms@, u.total_ms@));
    }

    /// The on-time counters have room for the time up to `now_ms`.
    pub fn can_book(&self, now_ms: u64) -> (r: bool)
        ensures
            r == self@.can_book(now_ms),
    {
        let delta: u64 = match self.last_account_ms {
            Some(l) => now_ms.saturating_sub(l),
            None => 0,
        };
        let mut ch: usize = 0;
        while ch < CHANNELS
            invariant
                ch <= CHANNELS,
                delta == self@.unbooked(now_ms),
                forall|i: int|
                    0 <= i < ch && #[trigger] self@.relays[i] ==> self@.on_today_ms[i]
                        + self@.unbooked(now_ms) <= u64::MAX && self@.total_ms[i]
                        + self@.unbooked(now_ms) <= u64::MAX,
            decreases CHANNELS - ch,
        {
            if self.relays[ch] && (self.on_today_ms[ch] > u64::MAX - delta || self.total_ms[ch]
                > u64::MAX - delta) {
                assert(self@.relays[ch as int]);
                return false;
            }
            ch += 1;
        }
        true
    }

    pub fn daily_capped(&self) -> (r: [bool; CHANNELS])
        ensures
            r@ == self@.capped,
    {
        self.capped
    }

    pub fn rain_hold_until(&self) -> (r: Option<u64>)
        ensures
            r == (if self@.cfg.rain_hold_until > 0 {
                Some(self@.cfg.rain_hold_until)
            } else {
                None
            }),
    {
        if self.cfg.rain_hold_until > 0 {
            Some(self.cfg.rain_hold_until)
        } else {
            None
        }
    }

    // ----- inputs from the firmware -------------------------------------------------------

    pub fn set_max_daily_min(&mut self, ch: usize, minutes: u16, now_ms: u64) -> (out: Vec<Action>)
        requires
            old(self)@.can_book(now_ms),
        ensures
            final(self)@ == old(self)@.with_daily_cap(ch, minutes).account(now_ms, None).after,
            out@ == old(self)@.with_daily_cap(ch, minutes).account(now_ms, None).actions,
    {
        let ghost a = self@;
        proof {
            self.lemma_shaped();
        }
        if ch < CHANNELS {
            self.cfg.channels[ch].max_daily_min = minutes;
            if minutes == 0 {
                if self.capped[ch] {
                    self.capped[ch] = false;
                    self.sched_prev[ch] = None;
                }
            } else if !self.relays[ch] && self.on_today_ms[ch] >= minutes as u64 * 60_000 {
                // Used up already: nobody can switch it on until midnight.
                self.capped[ch] = true;
            }
        }
        assert(self@ =~= a.with_daily_cap(ch, minutes));
        let mut out: Vec<Action> = Vec::new();
        self.account(now_ms, None, &mut out);
        assert(out@ =~= a.with_daily_cap(ch, minutes).account(now_ms, None).actions);
        out
    }

    pub fn on_ha_connected(&mut self, now_ms: u64) -> (out: Vec<Action>)
        requires
            old(self)@.can_book(now_ms),
        ensures
            final(self)@ == old(self)@.connected(now_ms).refresh(now_ms, None).after,
            out@ == old(self)@.connected(now_ms).refresh(now_ms, None).actions,
    {
        self.ha_connected = true;
        self.ha_declared_offline = false;
        // Optimistic: assume HA is there until the heartbeat grace says otherwise.
        self.last_ha_seen_ms = Some(now_ms);
        self.refresh(now_ms, None)
    }

    pub fn on_ha_disconnected(&mut self, now_ms: u64, local: Option<LocalTime>) -> (out: Vec<
        Action,
    >)
        requires
            old(self)@.fits(now_ms, local),
        ensures
            final(self)@ == old(self)@.disconnected().refresh(now_ms, local).after,
            out@ == old(self)@.disconnected().refresh(now_ms, local).actions,
    {
        self.ha_connected = false;
        proof {
            arbiter::lemma_fits_same(old(self)@, self@, now_ms, local);
        }
        self.refresh(now_ms, local)
    }

    /// Any message from HA (birth, command, schedule, heartbeat) proves it is alive.
    pub fn on_ha_seen(&mut self, now_ms: u64) -> (out: Vec<Action>)
        requires
            old(self)@.can_book(now_ms),
        ensures
            final(self)@ == old(self)@.seen(now_ms).refresh(now_ms, None).after,
            out@ == old(self)@.seen(now_ms).refresh(now_ms, None).actions,
    {
        self.ha_declared_offline = false;
        self.last_ha_seen_ms = Some(now_ms);
        self.refresh(now_ms, None)
    }

    /// HA's will message (`homeassistant/status` = `offline`).
    pub fn on_ha_offline(&mut self, now_ms: u64, local: Option<LocalTime>) -> (out: Vec<Action>)
        requires
            old(self)@.fits(now_ms, local),
        ensures
            final(self)@ == old(self)@.declared_offline().refresh(now_ms, local).after,
            out@ == old(self)@.declared_offline().refresh(now_ms, local).actions,
    {
        self.ha_declared_offline = true;
        proof {
            arbiter::lemma_fits_same(old(self)@, self@, now_ms, local);
        }
        self.refresh(now_ms, local)
    }

    /// Wall-clock time became valid (SNTP, RTC, or HA fallback).
    pub fn on_time_known(&mut self, now_ms: u64, local: LocalTime) -> (out: Vec<Action>)
        requires
            old(self)@.fits(now_ms, Some(local)),
        ensures
            final(self)@ == old(self)@.with_time_known().refresh(now_ms, Some(local)).after,
            out@ == old(self)@.with_time_known().refresh(now_ms, Some(local)).actions,
    {
        self.time_known = true;
        proof {
            arbiter::lemma_fits_same(old(self)@, self@, now_ms, Some(local));
        }
        self.refresh(now_ms, Some(local))
    }

    /// Relay command from HA. Also counts as an HA heartbeat.
    pub fn on_ha_command(&mut self, ch: usize, on: bool, now_ms: u64) -> (out: Vec<Action>)
        requires
            old(self)@.can_book(now_ms),
        ensures
            final(self)@ == old(self)@.ha_command(ch, on, now_ms).after,
            out@ == old(self)@.ha_command(ch, on, now_ms).actions,
    {
        let mut out = self.on_ha_seen(now_ms);
        if ch >= CHANNELS || self.cfg.mode == Mode::Off || self.link() != Link::Online {
            return out;
        }
        self.set_relay(ch, on, now_ms, &mut out, true);
        out
    }

    /// Local override (button, console): always honoured except in `Mode::Off`.
    pub fn on_local_command(&mut self, ch: usize, on: bool, now_ms: u64) -> (out: Vec<Action>)
        ensures
            final(self)@ == old(self)@.local_command(ch, on, now_ms).after,
            out@ == old(self)@.local_command(ch, on, now_ms).actions,
    {
        let ghost a = self@;
        let mut out: Vec<Action> = Vec::new();
        if ch < CHANNELS && self.cfg.mode != Mode::Off {
            self.set_relay(ch, on, now_ms, &mut out, false);
            assert(out@ =~= a.switch(ch as int, on, now_ms, false).actions);
        }
        out
    }

    /// Switch off the relays from `first` on.
    fn off_from(&mut self, first: usize, now_ms: u64, out: &mut Vec<Action>)
        requires
            first <= CHANNELS,
        ensures
            final(self)@ == old(self)@.drop_to(
                Seq::new(CHANNELS as nat, |i: int| old(self)@.relays[i] && i < first),
            ).after,
            final(out)@ == old(out)@ + old(self)@.drop_to(
                Seq::new(CHANNELS as nat, |i: int| old(self)@.relays[i] && i < first),
            ).actions,
    {
        let ghost a = self@;
        let ghost said = out@;
        let ghost left = Seq::new(CHANNELS as nat, |i: int| a.relays[i] && i < first);
        proof {
            self.lemma_shaped();
            arbiter::lemma_turned_off_same(a.relays, left, first as nat);
            assert(out@ =~= said + arbiter::turned_off(a.relays, left, first as nat));
        }
        let mut ch: usize = first;
        while ch < CHANNELS
            invariant
                first <= ch <= CHANNELS,
                a.shaped(),
                left == Seq::new(CHANNELS as nat, |i: int| a.relays[i] && i < first),
                self@ == (Arbiter { relays: self@.relays, timers: self@.timers, ..a }),
                self@.shaped(),
                forall|i: int|
                    0 <= i < CHANNELS ==> #[trigger] self@.relays[i] == (if i < ch {
                        left[i]
                    } else {
                        a.relays[i]
                    }),
                forall|i: int|
                    0 <= i < CHANNELS ==> #[trigger] self@.timers[i] == (if i < ch && a.relays[i]
                        && !left[i] {
                        None
                    } else {
                        a.timers[i]
                    }),
                out@ == said + arbiter::turned_off(a.relays, left, ch as nat),
            decreases CHANNELS - ch,
        {
            proof {
                arbiter::lemma_switch_off(self@, ch as int, now_ms, false);
            }
            self.set_relay(ch, false, now_ms, out, false);
            ch += 1;
            assert(out@ =~= said + arbiter::turned_off(a.relays, left, ch as nat));
        }
        assert(self@ =~= a.drop_to(left).after);
    }

    pub fn all_off(&mut self, now_ms: u64) -> (out: Vec<Action>)
        ensures
            final(self)@ == old(self)@.drop_to(arbiter::all_false()).after,
            out@ == old(self)@.drop_to(arbiter::all_false()).actions,
    {
        let mut out: Vec<Action> = Vec::new();
        assert(Seq::new(CHANNELS as nat, |i: int| self@.relays[i] && i < 0)
            =~= arbiter::all_false());
        let ghost a = self@;
        self.off_from(0, now_ms, &mut out);
        assert(out@ =~= a.drop_to(arbiter::all_false()).actions);
        out
    }

    pub fn set_schedule(
        &mut self,
        schedule: Schedule,
        now_ms: u64,
        local: Option<LocalTime>,
    ) -> (out: Vec<Action>)
        requires
            old(self)@.fits(now_ms, local),
        ensures
            final(self)@ == old(self)@.with_schedule(schedule).refresh(now_ms, local).after,
            out@ == old(self)@.with_schedule(schedule).refresh(now_ms, local).actions,
    {
        let ghost a = self@;
        self.schedule = schedule;
        self.sched_prev = [None;CHANNELS];
        assert(self@ =~= a.with_schedule(schedule));
        proof {
            arbiter::lemma_fits_same(a, self@, now_ms, local);
        }
        self.refresh(now_ms, local)
    }

    pub fn set_max_on_min(&mut self, ch: usize, minutes: u16, now_ms: u64) -> (out: Vec<Action>)
        ensures
            final(self)@ == old(self)@.with_max_on(ch, minutes).trip(now_ms).after,
            out@ == old(self)@.with_max_on(ch, minutes).trip(now_ms).actions,
    {
        let ghost a = self@;
        if ch < CHANNELS {
            self.cfg.channels[ch].max_on_min = minutes;
            self.safeguard.set_max_on_min(ch, minutes);
        }
        assert(self@ =~= a.with_max_on(ch, minutes));
        self.poll_safeguard(now_ms)
    }

    pub fn set_safe_state(&mut self, ch: usize, on: bool, now_ms: u64) -> (out: Vec<Action>)
        requires
            old(self)@.can_book(now_ms),
        ensures
            final(self)@ == old(self)@.with_safe_state(ch, on).refresh(now_ms, None).after,
            out@ == old(self)@.with_safe_state(ch, on).refresh(now_ms, None).actions,
    {
        let ghost a = self@;
        if ch < CHANNELS {
            self.cfg.channels[ch].safe_state = on;
        }
        assert(self@ =~= a.with_safe_state(ch, on));
        self.refresh(now_ms, None)
    }

    /// Enable or disable the interlock. Enabling it while several relays are on keeps only the
    /// lowest-numbered one, so the state is consistent with the rule from then on.
    pub fn set_exclusive(&mut self, on: bool, now_ms: u64) -> (out: Vec<Action>)
        ensures
            final(self)@ == old(self)@.with_exclusive(on).after,
            out@ == old(self)@.with_exclusive(on).actions,
    {
        let ghost start = self@;
        self.cfg.exclusive = on;
        let ghost a = self@;
        proof {
            self.lemma_shaped();
        }
        let mut out: Vec<Action> = Vec::new();
        if on {
            let mut first: usize = 0;
            while first < CHANNELS && !self.relays[first]
                invariant
                    first <= CHANNELS,
                    self@ == a,
                    forall|j: int| 0 <= j < first ==> !#[trigger] a.relays[j],
                decreases CHANNELS - first,
            {
                first += 1;
            }
            if first < CHANNELS {
                first += 1;
            }
            self.off_from(first, now_ms, &mut out);
            proof {
                let left = Seq::new(CHANNELS as nat, |i: int| a.relays[i] && i < first);
                assert(a.relays == start.relays);
                assert(left =~= start.lowest_only());
                assert(out@ =~= a.drop_to(left).actions);
            }
        }
        out
    }

    pub fn set_buzzer(&mut self, on: bool)
        ensures
            final(self)@ == old(self)@.with_buzzer(on),
    {
        self.cfg.buzzer = on;
    }

    /// Feed the wall-clock time (Unix seconds). Needed for the rain hold to expire.
    pub fn set_epoch(&mut self, epoch: Option<u64>)
        ensures
            final(self)@ == old(self)@.with_epoch(epoch),
    {
        self.epoch = epoch;
    }

    /// Suspend the stored schedule for `hours` (0 clears the hold). Takes effect at once:
    /// schedule-driven relays that are on go off, and resume at the next block edge after expiry.
    pub fn set_rain_hold(&mut self, hours: u32, now_ms: u64, local: Option<LocalTime>) -> (out: Vec<
        Action,
    >)
        requires
            old(self)@.fits(now_ms, local),
            old(self)@.hold_end(hours) <= u64::MAX,
        ensures
            final(self)@ == old(self)@.with_rain_hold(hours).refresh(now_ms, local).after,
            out@ == old(self)@.with_rain_hold(hours).refresh(now_ms, local).actions,
    {
        let ghost a = self@;
        self.cfg.rain_hold_until = match self.epoch {
            Some(e) => {
                if hours == 0 {
                    0
                } else {
                    e + hours as u64 * 3600
                }
            },
            None => 0,
        };
        self.sched_prev = [None;CHANNELS];
        assert(self@ =~= a.with_rain_hold(hours));
        proof {
            arbiter::lemma_fits_same(a, self@, now_ms, local);
        }
        self.refresh(now_ms, local)
    }

    pub fn set_offline_grace_s(
        &mut self,
        secs: u32,
        now_ms: u64,
        local: Option<LocalTime>,
    ) -> (out: Vec<Action>)
        requires
            old(self)@.fits(now_ms, local),
        ensures
            final(self)@ == old(self)@.with_grace(secs).refresh(now_ms, local).after,
            out@ == old(self)@.with_grace(secs).refresh(now_ms, local).actions,
    {
        self.cfg.offline_grace_s = secs;
        proof {
            arbiter::lemma_fits_same(old(self)@, self@, now_ms, local);
        }
        self.refresh(now_ms, local)
    }

    pub fn set_mode(&mut self, mode: Mode, now_ms: u64, local: Option<LocalTime>) -> (out: Vec<
        Action,
    >)
        requires
            mode == Mode::Off || old(self)@.fits(now_ms, local),
        ensures
            final(self)@ == old(self)@.with_mode(mode, now_ms, local).after,
            out@ == old(self)@.with_mode(mode, now_ms, local).actions,
    {
        let ghost start = self@;
        self.cfg.mode = mode;
        self.sched_prev = [None;CHANNELS];
        let ghost a = self@;
        assert(a =~= start.mode_set(mode));
        let mut out: Vec<Action> = Vec::new();
        if mode == Mode::Off {
            let mut off = self.all_off(now_ms);
            out.append(&mut off);
            assert(self@.fits(now_ms, local));
        } else {
            proof {
                arbiter::lemma_fits_same(start, self@, now_ms, local);
            }
        }
        let mut rest = self.refresh(now_ms, local);
        out.append(&mut rest);
        assert(out@ =~= start.with_mode(mode, now_ms, local).actions);
        out
    }

    /// Periodic tick, about once per second. `local` is `None` until the clock is valid.
    pub fn tick(&mut self, now_ms: u64, local: Option<LocalTime>) -> (out: Vec<Action>)
        requires
            old(self)@.fits(now_ms, local),
        ensures
            final(self)@ == old(self)@.refresh(now_ms, local).after,
            out@ == old(self)@.refresh(now_ms, local).actions,
    {
        self.refresh(now_ms, local)
    }
}

/// Whole minutes of each entry.
fn whole_minutes(ms: [u64; CHANNELS]) -> (r: [u32; CHANNELS])
    ensures
        r@ == ms@.map_values(|ms: u64| arbiter::minutes(ms)),
{
    let mut r: [u32; CHANNELS] = [0;CHANNELS];
    let mut ch: usize = 0;
    while ch < CHANNELS
        invariant
            ch <= CHANNELS,
            forall|i: int| 0 <= i < ch ==> r@[i] == arbiter::minutes(ms@[i]),
        decreases CHANNELS - ch,
    {
        r[ch] = (ms[ch] / 60_000) as u32;
        ch += 1;
    }
    assert(r@ =~= ms@.map_values(|ms: u64| arbiter::minutes(ms)));
    r
}

/// Booking on-time leaves the configuration and the link alone.
proof fn lemma_account_keeps(a: Arbiter, now: u64, local: Option<LocalTime>)
    ensures
        a.account(now, local).after.cfg == a.cfg,
        a.account(now, local).after.link == a.link,
{
}

/// Channels that are not overdue change nothing in what the safeguard does.
proof fn lemma_trip_gap(a: Arbiter, now: u64, n: nat, m: nat)
    requires
        n <= m <= CHANNELS,
        a.shaped(),
        forall|c: int| n <= c < m ==> !#[trigger] a.overdue(now, c),
    ensures
        a.trip_below(now, n) == a.trip_below(now, m),
    decreases m,
{
    if n < m {
        lemma_trip_gap(a, now, n, (m - 1) as nat);
        assert(a.trip_below(now, (m - 1) as nat).after =~= a.trip_below(now, m).after);
    }
}

} // verus!
