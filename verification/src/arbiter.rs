//! What the relay arbiter does, as a mathematical state machine: the state of the arbiter and,
//! for everything that can happen to it, the next state and the actions to apply.

use vstd::prelude::*;

use crate::board::CHANNELS;
use crate::config::{ChannelConfig, ConfigModel, Mode};
use crate::safeguard;
use crate::schedule::{LocalTime, Schedule};

verus! {

/// Who is in charge right now.
#[derive(Debug, Clone, Copy, PartialEq, Eq, Structural)]
pub enum Link {
    /// An HA client is connected (and alive): HA commands drive the relays.
    Online,
    /// No HA: the stored schedule drives the relays.
    OfflineSchedule,
    /// No HA and no wall-clock time yet: relays held in their safe state.
    OfflineUnknownTime,
}

impl Link {
    /// The published name of a link state.
    pub open spec fn name(self) -> Seq<char> {
        match self {
            Link::Online => "online"@,
            Link::OfflineSchedule => "offline_schedule"@,
            Link::OfflineUnknownTime => "offline_unknown_time"@,
        }
    }

    pub fn as_str(self) -> (r: &'static str)
        ensures
            r@ == self.name(),
    {
        match self {
            Link::Online => "online",
            Link::OfflineSchedule => "offline_schedule",
            Link::OfflineUnknownTime => "offline_unknown_time",
        }
    }
}

#[derive(Debug, Clone, PartialEq, Eq)]
pub enum Action {
    /// Drive relay `ch` (0-based) and publish its state.
    SetRelay { ch: usize, on: bool },
    /// The link state changed; publish it.
    LinkChanged(Link),
    /// The max-on-time safeguard turned `ch` off; raise the alarm entity.
    SafeguardTripped { ch: usize },
    /// What the schedule currently wants for `ch` changed (reported even while online).
    ScheduleWants { ch: usize, on: bool },
    /// The rain hold expired; the firmware should persist config and refresh the HA entities.
    RainHoldEnded,
    /// Accumulated on-time for `ch` changed (whole minutes today and lifetime total).
    DailyUsage { ch: usize, minutes: u32, total_minutes: u32 },
    /// `ch` hit its daily cap and was switched off; it stays blocked until local midnight.
    DailyCapReached { ch: usize },
    /// A new local day began: usage counters and cap blocks were reset.
    DayRolled,
}

/// The state of the arbiter.
#[verifier::ext_equal]
pub struct Arbiter {
    pub cfg: ConfigModel,
    pub schedule: Schedule,
    /// Safeguard limit of each channel in milliseconds, 0 = none.
    pub limits: Seq<u64>,
    /// When each channel's safeguard timer started, if it runs.
    pub timers: Seq<Option<u64>>,
    pub relays: Seq<bool>,
    /// What the schedule last wanted of each channel, if that is known.
    pub sched_prev: Seq<Option<bool>>,
    pub ha_connected: bool,
    pub ha_declared_offline: bool,
    pub last_ha_seen_ms: Option<u64>,
    pub time_known: bool,
    pub link: Option<Link>,
    pub epoch: Option<u64>,
    pub on_today_ms: Seq<u64>,
    pub total_ms: Seq<u64>,
    /// The channel used up its daily budget.
    pub capped: Seq<bool>,
    pub today: Option<u32>,
    pub last_account_ms: Option<u64>,
}

/// A state and the actions that led to it.
#[verifier::ext_equal]
pub struct Step {
    pub after: Arbiter,
    pub actions: Seq<Action>,
}

impl Step {
    /// This step, and then `next`.
    pub open spec fn and(self, next: Step) -> Step {
        Step { after: next.after, actions: self.actions + next.actions }
    }
}

/// Nothing happens.
pub open spec fn stay(a: Arbiter) -> Step {
    Step { after: a, actions: seq![] }
}

/// Whole minutes of a number of milliseconds, as published.
pub open spec fn minutes(ms: u64) -> u32 {
    (ms / 60_000) as u32
}

/// The relays among the first `n` that are on before and off after, as actions in ascending
/// order.
pub open spec fn turned_off(before: Seq<bool>, after: Seq<bool>, n: nat) -> Seq<Action>
    decreases n,
{
    if n == 0 {
        seq![]
    } else {
        let rest = turned_off(before, after, (n - 1) as nat);
        if before[n - 1] && !after[n - 1] {
            rest.push(Action::SetRelay { ch: (n - 1) as usize, on: false })
        } else {
            rest
        }
    }
}

/// The timers once the relays went from `before` to `after` and none was switched on: the timer
/// of a relay that went off stops.
pub open spec fn stopped(
    timers: Seq<Option<u64>>,
    before: Seq<bool>,
    after: Seq<bool>,
) -> Seq<Option<u64>> {
    Seq::new(
        CHANNELS as nat,
        |i: int|
            if before[i] && !after[i] {
                None
            } else {
                timers[i]
            },
    )
}

pub open spec fn all_unset() -> Seq<Option<bool>> {
    Seq::new(CHANNELS as nat, |i: int| None::<bool>)
}

pub open spec fn all_false() -> Seq<bool> {
    Seq::new(CHANNELS as nat, |i: int| false)
}

pub open spec fn all_zero() -> Seq<u64> {
    Seq::new(CHANNELS as nat, |i: int| 0u64)
}

/// The state of a device that has just started.
pub open spec fn started(cfg: ConfigModel, schedule: Schedule) -> Arbiter {
    Arbiter {
        cfg,
        schedule,
        limits: Seq::new(CHANNELS as nat, |i: int| (cfg.channels[i].max_on_min * 60_000) as u64),
        timers: Seq::new(CHANNELS as nat, |i: int| None::<u64>),
        relays: all_false(),
        sched_prev: all_unset(),
        ha_connected: false,
        ha_declared_offline: false,
        last_ha_seen_ms: None,
        time_known: false,
        link: None,
        epoch: None,
        on_today_ms: all_zero(),
        total_ms: all_zero(),
        capped: all_false(),
        today: None,
        last_account_ms: None,
    }
}

impl Arbiter {
    /// One entry per channel everywhere.
    pub open spec fn shaped(self) -> bool {
        &&& self.cfg.channels.len() == CHANNELS
        &&& self.limits.len() == CHANNELS
        &&& self.timers.len() == CHANNELS
        &&& self.relays.len() == CHANNELS
        &&& self.sched_prev.len() == CHANNELS
        &&& self.on_today_ms.len() == CHANNELS
        &&& self.total_ms.len() == CHANNELS
        &&& self.capped.len() == CHANNELS
    }

    /// Daily budget of a channel in milliseconds, 0 = none.
    pub open spec fn cap(self, ch: int) -> nat {
        self.cfg.channels[ch].max_daily_min as nat * 60_000
    }

    /// The link as last published.
    pub open spec fn link_now(self) -> Link {
        match self.link {
            Some(l) => l,
            None => Link::OfflineUnknownTime,
        }
    }

    /// HA is connected and was heard of within the grace time.
    pub open spec fn ha_alive(self, now: u64) -> bool {
        &&& self.ha_connected
        &&& !self.ha_declared_offline
        &&& self.cfg.offline_grace_s == 0 || (self.last_ha_seen_ms is Some && safeguard::elapsed(
            now,
            self.last_ha_seen_ms->0,
        ) < self.cfg.offline_grace_s * 1000)
    }

    /// The link state that holds at `now`.
    pub open spec fn link_at(self, now: u64) -> Link {
        if self.ha_alive(now) {
            Link::Online
        } else if self.time_known {
            Link::OfflineSchedule
        } else {
            Link::OfflineUnknownTime
        }
    }

    /// The stored schedule is suspended. With the time unknown a hold is taken to stand.
    pub open spec fn held(self) -> bool {
        self.cfg.rain_hold_until > 0 && (self.epoch is None || self.epoch->0
            < self.cfg.rain_hold_until)
    }

    /// What the schedule asks of a channel at `t`; during a rain hold it counts as empty.
    pub open spec fn wanted(self, ch: int, t: LocalTime) -> bool {
        !self.held() && self.schedule.wants(ch, t)
    }

    // ----- switching one relay ----------------------------------------------------------------

    /// The other relays go off before one goes on.
    pub open spec fn interlocked(self, ch: int) -> Seq<bool> {
        Seq::new(CHANNELS as nat, |i: int| i == ch && self.relays[i])
    }

    /// Somebody asks for relay `ch` to be `on`. A capped relay does not go on. With `restart`,
    /// asking again for a relay that is on starts its safeguard timer afresh.
    #[verifier::opaque]
    pub open spec fn switch(self, ch: int, on: bool, now: u64, restart: bool) -> Step {
        if on && self.capped[ch] {
            stay(self)
        } else {
            let quiet = if on && self.cfg.exclusive {
                self.interlocked(ch)
            } else {
                self.relays
            };
            let first = turned_off(self.relays, quiet, CHANNELS as nat);
            let timers = stopped(self.timers, self.relays, quiet);
            if self.relays[ch] == on {
                Step {
                    after: Arbiter {
                        relays: quiet,
                        timers: if on && restart {
                            timers.update(ch, Some(now))
                        } else {
                            timers
                        },
                        ..self
                    },
                    actions: first,
                }
            } else {
                Step {
                    after: Arbiter {
                        relays: quiet.update(ch, on),
                        timers: timers.update(
                            ch,
                            if on {
                                Some(now)
                            } else {
                                None
                            },
                        ),
                        ..self
                    },
                    actions: first.push(Action::SetRelay { ch: ch as usize, on }),
                }
            }
        }
    }

    /// Some relays go off: those that are on here and not in `after`.
    pub open spec fn drop_to(self, after: Seq<bool>) -> Step {
        Step {
            after: Arbiter {
                relays: after,
                timers: stopped(self.timers, self.relays, after),
                ..self
            },
            actions: turned_off(self.relays, after, CHANNELS as nat),
        }
    }

    // ----- counting on-time -------------------------------------------------------------------

    /// A local time is at hand and belongs to another day than the counters.
    pub open spec fn new_day(self, local: Option<LocalTime>) -> bool {
        local is Some && self.today is Some && self.today->0 != (local->0).day
    }

    /// Today's counters of the first `n` channels published as zero.
    pub open spec fn zero_usage(self, n: nat) -> Seq<Action>
        decreases n,
    {
        if n == 0 {
            seq![]
        } else {
            self.zero_usage((n - 1) as nat).push(
                Action::DailyUsage {
                    ch: (n - 1) as usize,
                    minutes: 0,
                    total_minutes: minutes(self.total_ms[n - 1]),
                },
            )
        }
    }

    /// Local midnight: today's counters and the cap blocks are cleared. What the schedule last
    /// wanted of a blocked relay is forgotten, so that a block refused yesterday applies now.
    pub open spec fn roll(self, local: Option<LocalTime>) -> Step {
        if self.new_day(local) {
            Step {
                after: Arbiter {
                    on_today_ms: all_zero(),
                    sched_prev: Seq::new(
                        CHANNELS as nat,
                        |i: int|
                            if self.capped[i] {
                                None
                            } else {
                                self.sched_prev[i]
                            },
                    ),
                    capped: all_false(),
                    today: Some((local->0).day),
                    ..self
                },
                actions: seq![Action::DayRolled] + self.zero_usage(CHANNELS as nat),
            }
        } else if local is Some {
            stay(Arbiter { today: Some((local->0).day), ..self })
        } else {
            stay(self)
        }
    }

    /// Milliseconds since on-time was last booked.
    pub open spec fn unbooked(self, now: u64) -> nat {
        match self.last_account_ms {
            Some(l) => safeguard::elapsed(now, l),
            None => 0,
        }
    }

    /// The counters of the relays that are on have room for the time up to `now`.
    pub open spec fn can_book(self, now: u64) -> bool {
        forall|i: int|
            0 <= i < CHANNELS && #[trigger] self.relays[i] ==> self.on_today_ms[i] + self.unbooked(
                now,
            ) <= u64::MAX && self.total_ms[i] + self.unbooked(now) <= u64::MAX
    }

    pub open spec fn booked_today(self, now: u64, ch: int) -> u64 {
        if self.relays[ch] {
            (self.on_today_ms[ch] + self.unbooked(now)) as u64
        } else {
            self.on_today_ms[ch]
        }
    }

    pub open spec fn booked_total(self, now: u64, ch: int) -> u64 {
        if self.relays[ch] {
            (self.total_ms[ch] + self.unbooked(now)) as u64
        } else {
            self.total_ms[ch]
        }
    }

    /// The relay is on and reaches its daily budget with the time up to `now`.
    pub open spec fn reaches_cap(self, now: u64, ch: int) -> bool {
        self.relays[ch] && self.cap(ch) > 0 && self.booked_today(now, ch) >= self.cap(ch)
    }

    /// What booking reports about one channel.
    pub open spec fn book_report(self, now: u64, ch: int) -> Seq<Action> {
        let usage = if self.relays[ch] && (self.booked_today(now, ch) / 60_000
            != self.on_today_ms[ch] / 60_000 || self.booked_total(now, ch) / 60_000
            != self.total_ms[ch] / 60_000) {
            seq![
                Action::DailyUsage {
                    ch: ch as usize,
                    minutes: minutes(self.booked_today(now, ch)),
                    total_minutes: minutes(self.booked_total(now, ch)),
                },
            ]
        } else {
            seq![]
        };
        if self.reaches_cap(now, ch) {
            usage.push(Action::SetRelay { ch: ch as usize, on: false }).push(
                Action::DailyCapReached { ch: ch as usize },
            )
        } else {
            usage
        }
    }

    /// What booking reports about the first `n` channels.
    pub open spec fn book_reports(self, now: u64, n: nat) -> Seq<Action>
        decreases n,
    {
        if n == 0 {
            seq![]
        } else {
            self.book_reports(now, (n - 1) as nat) + self.book_report(now, n - 1)
        }
    }

    /// Booking of the first `n` channels: the time up to `now` is added to the counters of
    /// every relay that is on, and a relay that reaches its daily budget goes off and stays
    /// blocked.
    pub open spec fn book_below(self, now: u64, n: nat) -> Step {
        let hit = |i: int| i < n && self.reaches_cap(now, i);
        Step {
            after: Arbiter {
                on_today_ms: Seq::new(
                    CHANNELS as nat,
                    |i: int|
                        if i < n {
                            self.booked_today(now, i)
                        } else {
                            self.on_today_ms[i]
                        },
                ),
                total_ms: Seq::new(
                    CHANNELS as nat,
                    |i: int|
                        if i < n {
                            self.booked_total(now, i)
                        } else {
                            self.total_ms[i]
                        },
                ),
                capped: Seq::new(CHANNELS as nat, |i: int| self.capped[i] || hit(i)),
                relays: Seq::new(CHANNELS as nat, |i: int| self.relays[i] && !hit(i)),
                timers: Seq::new(
                    CHANNELS as nat,
                    |i: int|
                        if hit(i) {
                            None
                        } else {
                            self.timers[i]
                        },
                ),
                last_account_ms: Some(now),
                ..self
            },
            actions: self.book_reports(now, n),
        }
    }

    pub open spec fn book(self, now: u64) -> Step {
        self.book_below(now, CHANNELS as nat)
    }

    /// Roll the day at local midnight, then book on-time and enforce the daily caps.
    pub open spec fn account(self, now: u64, local: Option<LocalTime>) -> Step {
        let rolled = self.roll(local);
        rolled.and(rolled.after.book(now))
    }

    /// The counters have room for what [`Arbiter::account`] adds to them.
    pub open spec fn fits(self, now: u64, local: Option<LocalTime>) -> bool {
        self.roll(local).after.can_book(now)
    }

    // ----- re-evaluation ----------------------------------------------------------------------

    /// The link state at `now` is taken over, and reported if it changed.
    pub open spec fn relink(self, now: u64) -> Step {
        let link = self.link_at(now);
        Step {
            after: Arbiter { link: Some(link), ..self },
            actions: if self.link != Some(link) {
                seq![Action::LinkChanged(link)]
            } else {
                seq![]
            },
        }
    }

    /// A hold that has expired is cleared, and the whole schedule is looked at afresh.
    pub open spec fn end_hold(self) -> Step {
        if self.cfg.rain_hold_until > 0 && !self.held() {
            Step {
                after: Arbiter {
                    cfg: ConfigModel { rain_hold_until: 0, ..self.cfg },
                    sched_prev: all_unset(),
                    ..self
                },
                actions: seq![Action::RainHoldEnded],
            }
        } else {
            stay(self)
        }
    }

    /// What the schedule wants of `ch` is compared with what it last wanted, and reported when
    /// it changed. Relays follow it if `apply`: on a change, and always if `snap`.
    pub open spec fn follow_one(
        self,
        ch: int,
        want: bool,
        apply: bool,
        snap: bool,
        now: u64,
    ) -> Step {
        let edge = self.sched_prev[ch] != Some(want);
        let noted = if edge {
            Step {
                after: Arbiter { sched_prev: self.sched_prev.update(ch, Some(want)), ..self },
                actions: seq![Action::ScheduleWants { ch: ch as usize, on: want }],
            }
        } else {
            stay(self)
        };
        if apply && (edge || snap) {
            noted.and(noted.after.switch(ch, want, now, false))
        } else {
            noted
        }
    }

    /// [`Arbiter::follow_one`] for the first `n` channels, in order.
    pub open spec fn follow(
        self,
        wanted: Seq<bool>,
        apply: bool,
        snap: bool,
        now: u64,
        n: nat,
    ) -> Step
        decreases n,
    {
        if n == 0 {
            stay(self)
        } else {
            let before = self.follow(wanted, apply, snap, now, (n - 1) as nat);
            before.and(before.after.follow_one(n - 1, wanted[n - 1], apply, snap, now))
        }
    }

    /// The first `n` channels are put in their safe state, in order.
    pub open spec fn hold_safe(self, now: u64, n: nat) -> Step
        decreases n,
    {
        if n == 0 {
            stay(self)
        } else {
            let before = self.hold_safe(now, (n - 1) as nat);
            before.and(
                before.after.switch(n - 1, self.cfg.channels[n - 1].safe_state, now, false),
            )
        }
    }

    /// The safeguard timer of `ch` has run out.
    pub open spec fn overdue(self, now: u64, ch: int) -> bool {
        safeguard::timer_expired(self.limits[ch], self.timers[ch], now)
    }

    /// What the safeguard reports about the first `n` channels.
    pub open spec fn trip_reports(self, now: u64, n: nat) -> Seq<Action>
        decreases n,
    {
        if n == 0 {
            seq![]
        } else {
            let rest = self.trip_reports(now, (n - 1) as nat);
            if self.overdue(now, n - 1) {
                let off = if self.relays[n - 1] {
                    rest.push(Action::SetRelay { ch: (n - 1) as usize, on: false })
                } else {
                    rest
                };
                off.push(Action::SafeguardTripped { ch: (n - 1) as usize })
            } else {
                rest
            }
        }
    }

    /// The overdue relays among the first `n` go off, and that is reported.
    pub open spec fn trip_below(self, now: u64, n: nat) -> Step {
        let left = Seq::new(
            CHANNELS as nat,
            |i: int| self.relays[i] && !(i < n && self.overdue(now, i)),
        );
        Step {
            after: Arbiter {
                relays: left,
                timers: stopped(self.timers, self.relays, left),
                ..self
            },
            actions: self.trip_reports(now, n),
        }
    }

    pub open spec fn trip(self, now: u64) -> Step {
        self.trip_below(now, CHANNELS as nat)
    }

    /// The link has just entered offline-schedule mode, and no local time is at hand by which
    /// the schedule could be applied: the whole schedule is due as soon as there is one.
    pub open spec fn postpone(self, changed: bool) -> Arbiter {
        if changed && self.link == Some(Link::OfflineSchedule) {
            Arbiter { sched_prev: all_unset(), ..self }
        } else {
            self
        }
    }

    /// Schedule and safe state are applied after the link went from this state's to the one
    /// that holds now; `self` already carries the new link. On entering offline-schedule mode
    /// the schedule is applied to every channel, now or with the next local time.
    pub open spec fn drive(self, now: u64, local: Option<LocalTime>, changed: bool) -> Step {
        let ended = self.end_hold();
        let a = ended.after;
        let followed = if local is Some {
            let wanted = Seq::new(CHANNELS as nat, |ch: int| a.wanted(ch, local->0));
            let apply = a.link == Some(Link::OfflineSchedule) && a.cfg.mode == Mode::Auto;
            ended.and(a.follow(wanted, apply, changed, now, CHANNELS as nat))
        } else {
            ended.and(stay(a.postpone(changed)))
        };
        if a.link == Some(Link::OfflineUnknownTime) && changed {
            followed.and(followed.after.hold_safe(now, CHANNELS as nat))
        } else {
            followed
        }
    }

    /// Everything is looked at again: on-time and caps, the link, the schedule, the safe state
    /// and the safeguard.
    #[verifier::opaque]
    pub open spec fn refresh(self, now: u64, local: Option<LocalTime>) -> Step {
        let booked = self.account(now, local);
        let linked = booked.and(booked.after.relink(now));
        let driven = if self.cfg.mode == Mode::Off {
            linked
        } else {
            linked.and(
                linked.after.drive(now, local, self.link != Some(booked.after.link_at(now))),
            )
        };
        driven.and(driven.after.trip(now))
    }

    // ----- what can happen --------------------------------------------------------------------

    pub open spec fn seen(self, now: u64) -> Arbiter {
        Arbiter { ha_declared_offline: false, last_ha_seen_ms: Some(now), ..self }
    }

    pub open spec fn connected(self, now: u64) -> Arbiter {
        Arbiter {
            ha_connected: true,
            ha_declared_offline: false,
            last_ha_seen_ms: Some(now),
            ..self
        }
    }

    pub open spec fn disconnected(self) -> Arbiter {
        Arbiter { ha_connected: false, ..self }
    }

    pub open spec fn declared_offline(self) -> Arbiter {
        Arbiter { ha_declared_offline: true, ..self }
    }

    pub open spec fn with_time_known(self) -> Arbiter {
        Arbiter { time_known: true, ..self }
    }

    pub open spec fn with_epoch(self, epoch: Option<u64>) -> Arbiter {
        Arbiter { epoch, ..self }
    }

    pub open spec fn with_buzzer(self, on: bool) -> Arbiter {
        Arbiter { cfg: ConfigModel { buzzer: on, ..self.cfg }, ..self }
    }

    pub open spec fn with_grace(self, secs: u32) -> Arbiter {
        Arbiter { cfg: ConfigModel { offline_grace_s: secs, ..self.cfg }, ..self }
    }

    pub open spec fn with_schedule(self, schedule: Schedule) -> Arbiter {
        Arbiter { schedule, sched_prev: all_unset(), ..self }
    }

    pub open spec fn mode_set(self, mode: Mode) -> Arbiter {
        Arbiter { cfg: ConfigModel { mode, ..self.cfg }, sched_prev: all_unset(), ..self }
    }

    pub open spec fn ha_command(self, ch: usize, on: bool, now: u64) -> Step {
        let seen = self.seen(now).refresh(now, None);
        if ch >= CHANNELS || seen.after.cfg.mode == Mode::Off || seen.after.link_now()
            != Link::Online {
            seen
        } else {
            seen.and(seen.after.switch(ch as int, on, now, true))
        }
    }

    pub open spec fn local_command(self, ch: usize, on: bool, now: u64) -> Step {
        if ch < CHANNELS && self.cfg.mode != Mode::Off {
            self.switch(ch as int, on, now, false)
        } else {
            stay(self)
        }
    }

    /// Only the lowest relay that is on stays on.
    pub open spec fn lowest_only(self) -> Seq<bool> {
        Seq::new(
            CHANNELS as nat,
            |i: int| self.relays[i] && forall|j: int| 0 <= j < i ==> !#[trigger] self.relays[j],
        )
    }

    pub open spec fn with_exclusive(self, on: bool) -> Step {
        let a = Arbiter { cfg: ConfigModel { exclusive: on, ..self.cfg }, ..self };
        if on {
            a.drop_to(self.lowest_only())
        } else {
            stay(a)
        }
    }

    pub open spec fn with_mode(self, mode: Mode, now: u64, local: Option<LocalTime>) -> Step {
        let a = self.mode_set(mode);
        let quiet = if mode == Mode::Off {
            a.drop_to(all_false())
        } else {
            stay(a)
        };
        quiet.and(quiet.after.refresh(now, local))
    }

    /// The Unix time until which a hold of `hours` from now stands; 0 when there is none, or
    /// the time is not known.
    pub open spec fn hold_end(self, hours: u32) -> nat {
        if hours == 0 || self.epoch is None {
            0
        } else {
            (self.epoch->0 + hours * 3600) as nat
        }
    }

    pub open spec fn with_rain_hold(self, hours: u32) -> Arbiter {
        Arbiter {
            cfg: ConfigModel { rain_hold_until: self.hold_end(hours) as u64, ..self.cfg },
            sched_prev: all_unset(),
            ..self
        }
    }

    /// A new daily budget, 0 = none. Without one the channel is no longer blocked. A relay that
    /// is off and has already used it up is blocked; one that is on is left to the booking that
    /// follows.
    pub open spec fn with_daily_cap(self, ch: usize, minutes: u16) -> Arbiter {
        if ch < CHANNELS {
            let c = ch as int;
            let spent = !self.relays[c] && self.on_today_ms[c] >= minutes * 60_000;
            let blocked = minutes > 0 && (self.capped[c] || spent);
            Arbiter {
                cfg: ConfigModel {
                    channels: self.cfg.channels.update(
                        c,
                        ChannelConfig {
                            max_daily_min: minutes,
                            ..self.cfg.channels[c]
                        },
                    ),
                    ..self.cfg
                },
                capped: self.capped.update(c, blocked),
                sched_prev: if self.capped[c] && !blocked {
                    self.sched_prev.update(c, None)
                } else {
                    self.sched_prev
                },
                ..self
            }
        } else {
            self
        }
    }

    pub open spec fn with_max_on(self, ch: usize, minutes: u16) -> Arbiter {
        if ch < CHANNELS {
            let c = ch as int;
            Arbiter {
                cfg: ConfigModel {
                    channels: self.cfg.channels.update(
                        c,
                        ChannelConfig {
                            max_on_min: minutes,
                            ..self.cfg.channels[c]
                        },
                    ),
                    ..self.cfg
                },
                limits: self.limits.update(c, (minutes * 60_000) as u64),
                ..self
            }
        } else {
            self
        }
    }

    pub open spec fn with_safe_state(self, ch: usize, on: bool) -> Arbiter {
        if ch < CHANNELS {
            let c = ch as int;
            Arbiter {
                cfg: ConfigModel {
                    channels: self.cfg.channels.update(
                        c,
                        ChannelConfig { safe_state: on, ..self.cfg.channels[c] },
                    ),
                    ..self.cfg
                },
                ..self
            }
        } else {
            self
        }
    }

    /// Counters saved earlier are taken over; a channel is blocked if they already reach its
    /// budget.
    pub open spec fn restored(self, day: u32, on_today_ms: Seq<u64>, total_ms: Seq<u64>) -> Arbiter {
        Arbiter {
            total_ms,
            on_today_ms,
            today: if day != 0 {
                Some(day)
            } else {
                None
            },
            capped: Seq::new(
                CHANNELS as nat,
                |i: int| self.cap(i) > 0 && on_today_ms[i] >= self.cap(i),
            ),
            ..self
        }
    }
}

/// Where the relays agree, none goes off.
pub proof fn lemma_turned_off_same(before: Seq<bool>, after: Seq<bool>, n: nat)
    requires
        forall|i: int| 0 <= i < n && before[i] ==> #[trigger] after[i],
    ensures
        turned_off(before, after, n) == Seq::<Action>::empty(),
    decreases n,
{
    if n > 0 {
        lemma_turned_off_same(before, after, (n - 1) as nat);
    }
}

/// Whether the counters have room depends on relays, counters and their times only.
pub proof fn lemma_fits_same(a: Arbiter, b: Arbiter, now: u64, local: Option<LocalTime>)
    requires
        a.fits(now, local),
        forall|i: int| 0 <= i < CHANNELS && #[trigger] b.relays[i] ==> a.relays[i],
        b.on_today_ms == a.on_today_ms,
        b.total_ms == a.total_ms,
        b.today == a.today,
        b.last_account_ms == a.last_account_ms,
    ensures
        b.fits(now, local),
{
    let ra = a.roll(local).after;
    let rb = b.roll(local).after;
    assert forall|i: int| 0 <= i < CHANNELS && #[trigger] rb.relays[i] implies rb.on_today_ms[i]
        + rb.unbooked(now) <= u64::MAX && rb.total_ms[i] + rb.unbooked(now) <= u64::MAX by {
        assert(b.relays[i]);
        assert(ra.relays[i]);
    }
}

/// Switching changes relays and timers only.
pub proof fn lemma_switch_frame(a: Arbiter, ch: int, on: bool, now: u64, restart: bool)
    requires
        0 <= ch < CHANNELS,
    ensures
        a.switch(ch, on, now, restart).after == (Arbiter {
            relays: a.switch(ch, on, now, restart).after.relays,
            timers: a.switch(ch, on, now, restart).after.timers,
            ..a
        }),
        a.shaped() ==> a.switch(ch, on, now, restart).after.shaped(),
{
    reveal(Arbiter::switch);
}

/// Switching a relay off touches that relay and its timer only, and nothing if it is off.
pub proof fn lemma_switch_off(a: Arbiter, ch: int, now: u64, restart: bool)
    requires
        a.shaped(),
        0 <= ch < CHANNELS,
    ensures
        a.switch(ch, false, now, restart) == (if a.relays[ch] {
            Step {
                after: Arbiter {
                    relays: a.relays.update(ch, false),
                    timers: a.timers.update(ch, None),
                    ..a
                },
                actions: seq![Action::SetRelay { ch: ch as usize, on: false }],
            }
        } else {
            stay(a)
        }),
{
    reveal(Arbiter::switch);
    lemma_turned_off_same(a.relays, a.relays, CHANNELS as nat);
    assert(stopped(a.timers, a.relays, a.relays) =~= a.timers);
    assert(turned_off(a.relays, a.relays, CHANNELS as nat).push(
        Action::SetRelay { ch: ch as usize, on: false },
    ) =~= seq![Action::SetRelay { ch: ch as usize, on: false }]);
}

} // verus!
