//! What the main loop does, as a mathematical state machine: its state and, for everything that
//! it reacts to, the next state and what is to be done.

use vstd::prelude::*;

use crate::api::entity::Reading;
use crate::api::message::Value;
use crate::api::server;
use crate::api::server::{Message, World};
use crate::api::session::Order;
use crate::arbiter;
use crate::arbiter::{Action, Arbiter, Step};
use crate::board::CHANNELS;
use crate::firmware::buzzer::Tone;
use crate::firmware::clock;
use crate::firmware::clock::Fields;
use crate::firmware::entities;
use crate::firmware::entities::Keys;
use crate::firmware::number;
use crate::firmware::settings::Net;
use crate::firmware::wifi::Wish;
use crate::laws;
use crate::rules::Input;
use crate::safeguard;
use crate::schedule;
use crate::schedule::{LocalTime, Schedule};
use crate::text;

verus! {

/// Open the setup access point when the station has been down this long (and credentials exist).
pub const PORTAL_AFTER_OFFLINE: u64 = 600_000;

/// Close the access point this long after the station is back, or after it was opened while the
/// station was up.
pub const PORTAL_IDLE: u64 = 900_000;

/// A device whose name or key changed restarts this much later.
pub const RESTART_DELAY: u64 = 25_000;

/// Scans for the setup page are this far apart at least.
pub const SCAN_PAUSE: u64 = 10_000;

/// What the LED shows.
#[derive(Debug, Clone, Copy, PartialEq, Eq, Structural)]
pub enum Light {
    NoWifi,
    WifiNoHa,
    Online,
    Portal,
}

/// When something happens, and what the device reads off its clock and its memory then.
#[derive(Debug, Clone, Copy)]
pub struct Moment {
    /// Milliseconds since the device started.
    pub now: u64,
    /// The system clock, in Unix seconds.
    pub secs: u64,
    /// What the system makes of it in its timezone.
    pub fields: Option<Fields>,
    pub heap_free: u32,
    pub heap_min: u32,
}

impl Moment {
    /// Day, hour and minute are within their ranges, and the times are not at the end of their range.
    pub open spec fn sane(self) -> bool {
        &&& self.now <= u64::MAX - RESTART_DELAY
        &&& self.secs <= u64::MAX - 259_200
        &&& self.fields matches Some(f) ==> f.in_range()
    }

    pub fn is_sane(&self) -> (r: bool)
        ensures
            r == self.sane(),
    {
        let fields = match self.fields {
            Some(f) => f.yday < 366 && f.hour < 24 && f.min < 60,
            None => true,
        };
        fields && self.now <= u64::MAX - RESTART_DELAY && self.secs <= u64::MAX - 259_200
    }

    pub open spec fn local(self) -> Option<LocalTime> {
        clock::local_of(self.secs, self.fields)
    }

    pub open spec fn epoch(self) -> Option<u64> {
        if clock::valid(self.secs) {
            Some(self.secs)
        } else {
            None
        }
    }
}

/// Something to be done.
pub enum Deed {
    /// Drive a relay.
    Relay { ch: usize, on: bool },
    Light(Light),
    Play(Tone),
    /// Turn the buzzer on or off.
    Buzzer(bool),
    /// To every API connection.
    Send(Message),
    /// Store the configuration.
    SaveConfig,
    /// Store the on-time counters.
    SaveUsage,
    /// Store the schedule.
    SaveSchedule,
    /// Hand the timezone to the system.
    SetTz,
    /// Store the timezone.
    SaveTz,
    /// Set the system clock.
    SetEpoch(u32),
    /// Read the clock, and tell that the time has been set.
    TimeSet,
    /// Store the network settings, and record the seed as applied.
    SaveNet,
    Wifi(Wish),
    /// Advertise the device on the network.
    Announce,
    /// Confirm the running image, so that it is not rolled back.
    Confirm,
    Restart,
    /// Erase all settings and restart.
    FactoryReset,
    /// Download an image and install it.
    Fetch(Seq<char>),
    /// Tell about an update.
    Report(Seq<char>),
    /// Read a schedule, take over its timezone, and hand it back.
    Parse(Seq<char>),
    /// Forget the report on the last crash.
    ClearCrash,
}

/// Something the main loop reacts to.
pub enum Signal {
    Api(Order),
    Tick,
    WifiUp(Seq<char>),
    WifiDown,
    Rssi(i32),
    OtaStatus(Seq<char>),
    LongPress,
    FactoryReset,
    PortalScan,
    Provision(Net),
    Schedule(Result<Schedule, Seq<char>>),
    TimeSet,
}

/// The state of the main loop.
#[verifier::ext_equal]
pub struct Machine {
    pub ctl: Arbiter,
    pub world: World,
    pub keys: Keys,
    pub tz: Seq<char>,
    pub net: Net,
    pub ap_active: bool,
    pub announced: bool,
    pub wifi_up: bool,
    pub sta_down_since: Option<u64>,
    /// When the access point was opened, or the station came back after that.
    pub portal_since: Option<u64>,
    pub last_scan: Option<u64>,
    pub restart_at: Option<u64>,
    pub clients: usize,
    pub time_known: bool,
    pub ticks: u64,
    pub tripped: Seq<bool>,
    pub confirmed: bool,
    pub updating: bool,
    /// What is to be done, in order.
    pub deeds: Seq<Deed>,
}

/// What is said about the stored schedule, or about one that was rejected.
pub open spec fn schedule_text(s: Schedule, error: Option<Seq<char>>) -> Seq<char> {
    match error {
        Some(e) => "rejected: "@ + e,
        None => if s.blocks() == 0 {
            "none"@
        } else {
            "rev "@ + text::decimal(s.rev as nat) + ", "@ + text::decimal(s.blocks())
                + " blocks, tz "@ + (if s.tz@.len() == 0 {
                "-"@
            } else {
                s.tz@
            })
        },
    }
}

/// The text in a service's first argument.
pub open spec fn first_text(args: Seq<Seq<Value>>) -> Seq<char> {
    if args.len() > 0 && args[0].len() > 3 && args[0][3] is Text {
        args[0][3]->Text_0
    } else {
        seq![]
    }
}

/// The schedule has no blocks and no timezone.
pub open spec fn blank(s: Schedule) -> bool {
    &&& s.rev == 0
    &&& s.tz@.len() == 0
    &&& forall|i: int| 0 <= i < CHANNELS ==> (#[trigger] s.channels@[i])@.len() == 0
}

/// More than `limit` milliseconds have passed since then.
pub open spec fn long_since(since: Option<u64>, now: u64, limit: u64) -> bool {
    match since {
        Some(t) => safeguard::elapsed(now, t) > limit,
        None => false,
    }
}

/// One more, up to the end of the range.
pub open spec fn one_more(n: u64) -> u64 {
    if n == u64::MAX {
        n
    } else {
        (n + 1) as u64
    }
}

impl Machine {
    pub open spec fn wf(self) -> bool {
        &&& self.ctl.shaped()
        &&& self.ctl.schedule.blocks() <= usize::MAX
        &&& self.tripped.len() == CHANNELS
    }

    pub open spec fn does(self, d: Deed) -> Machine {
        Machine { deeds: self.deeds.push(d), ..self }
    }

    /// A state is recorded, and sent if it is new.
    #[verifier::opaque]
    pub open spec fn sets(self, key: u32, r: Reading) -> Machine {
        if server::lookup(self.world.states, key) matches Some(s) && s.equals(r) {
            self
        } else {
            self.publishes(key, r)
        }
    }

    /// A state is recorded and sent.
    pub open spec fn publishes(self, key: u32, r: Reading) -> Machine {
        Machine {
            world: World { states: server::recorded(self.world.states, key, r), ..self.world },
            ..self
        }.does(Deed::Send(Message::State(key, r)))
    }

    pub open spec fn with_ctl(self, ctl: Arbiter) -> Machine {
        Machine { ctl, ..self }
    }

    /// An action of the controller is applied.
    pub open spec fn acts(self, a: Action) -> Machine {
        match a {
            Action::SetRelay { ch, on } => if ch < CHANNELS {
                let m = self.does(Deed::Relay { ch, on }).sets(
                    self.keys.relay@[ch as int],
                    Reading::Bool(on),
                );
                if on && self.tripped[ch as int] {
                    Machine { tripped: m.tripped.update(ch as int, false), ..m }.sets(
                        self.keys.tripped@[ch as int],
                        Reading::Bool(false),
                    )
                } else {
                    m
                }
            } else {
                self
            },
            Action::LinkChanged(link) => self.sets(self.keys.link, Reading::Text(link.name())),
            Action::SafeguardTripped { ch } => if ch < CHANNELS {
                let m = self.does(Deed::Play(Tone::Safeguard));
                Machine { tripped: m.tripped.update(ch as int, true), ..m }.sets(
                    self.keys.tripped@[ch as int],
                    Reading::Bool(true),
                )
            } else {
                self
            },
            Action::RainHoldEnded => self.does(Deed::SaveConfig).sets(
                self.keys.rain_hold_hours,
                Reading::Float(0),
            ).sets(self.keys.rain_hold, Reading::Text("none"@)),
            Action::DailyUsage { ch, minutes, total_minutes } => {
                let m = self.does(Deed::SaveUsage);
                if ch < CHANNELS {
                    m.sets(
                        self.keys.on_today@[ch as int],
                        Reading::Float(number::float_of(minutes as nat) as u32),
                    ).sets(
                        self.keys.total_on@[ch as int],
                        Reading::Float(number::float_of(total_minutes as nat) as u32),
                    ).says_block(ch)
                } else {
                    m
                }
            },
            Action::DailyCapReached { ch } => if ch < CHANNELS {
                self.says_block(ch)
            } else {
                self
            },
            _ => self,
        }
    }

    /// Whether a relay is blocked by its daily budget is shown.
    pub open spec fn says_block(self, ch: usize) -> Machine {
        self.sets(
            self.keys.daily_limit@[ch as int],
            Reading::Bool(self.ctl.capped[ch as int]),
        )
    }

    /// Until when the rain hold stands is shown.
    pub open spec fn says_hold(self, at: Moment) -> Machine {
        self.sets(
            self.keys.rain_hold,
            Reading::Text(
                clock::hold_text(self.ctl.cfg.rain_hold_until, at.secs, at.local()),
            ),
        )
    }

    /// The actions of the controller are applied in order.
    pub open spec fn applies(self, actions: Seq<Action>) -> Machine
        decreases actions.len(),
    {
        if actions.len() == 0 {
            self
        } else {
            self.applies(actions.drop_last()).acts(actions.last())
        }
    }

    /// The controller makes a step, and its actions are applied.
    pub open spec fn steps(self, s: Step) -> Machine {
        self.with_ctl(s.after).applies(s.actions)
    }

    pub open spec fn credentials(self) -> bool {
        self.net.ssid.len() > 0
    }

    /// What the LED shows while the access point is closed and the station is up.
    pub open spec fn light_up(self) -> Light {
        if self.clients > 0 {
            Light::Online
        } else {
            Light::WifiNoHa
        }
    }

    pub open spec fn says_schedule(self, s: Schedule, error: Option<Seq<char>>) -> Machine {
        self.sets(self.keys.schedule_loaded, Reading::Bool(s.blocks() > 0)).sets(
            self.keys.schedule_rev,
            Reading::Float(number::float_of(s.rev as nat) as u32),
        ).sets(self.keys.schedule_info, Reading::Text(schedule_text(s, error)))
    }

    pub open spec fn says_heap(self, at: Moment) -> Machine {
        self.sets(
            self.keys.heap,
            Reading::Float(number::float_of(at.heap_free as nat) as u32),
        ).sets(
            self.keys.heap_min,
            Reading::Float(number::float_of(at.heap_min as nat) as u32),
        )
    }

    // ----- ticks ------------------------------------------------------------------------------

    /// What the controller does on a tick: it learns the time, and re-evaluates.
    #[verifier::opaque]
    pub open spec fn tick_step(self, at: Moment) -> Step {
        let c = self.ctl.with_epoch(at.epoch());
        let learned = if !self.time_known && clock::valid(at.secs) && at.local() is Some {
            c.with_time_known().refresh(at.now, at.local())
        } else {
            arbiter::stay(c)
        };
        learned.and(learned.after.refresh(at.now, at.local()))
    }

    /// Every 30 s the health sensors report.
    #[verifier::opaque]
    pub open spec fn reports_health(self, at: Moment) -> Machine {
        if self.ticks % 30 == 0 {
            self.publishes(
                self.keys.uptime,
                Reading::Float(number::float_of((at.now / 1000) as nat) as u32),
            ).sets(self.keys.local_time, Reading::Text(clock::shown(at.local()))).says_hold(
                at,
            ).says_heap(at)
        } else {
            self
        }
    }

    /// The image proved itself: an HA client got through, or it ran 5 minutes.
    #[verifier::opaque]
    pub open spec fn confirms(self) -> Machine {
        if !self.confirmed && (self.clients > 0 || self.ticks > 300) {
            Machine { confirmed: true, ..self }.does(Deed::Confirm)
        } else {
            self
        }
    }

    /// The access point opens after a long outage.
    #[verifier::opaque]
    pub open spec fn opens_portal(self, at: Moment) -> Machine {
        if !self.ap_active && self.credentials() && long_since(
            self.sta_down_since,
            at.now,
            PORTAL_AFTER_OFFLINE,
        ) {
            Machine { ap_active: true, portal_since: Some(at.now), ..self }.does(
                Deed::Play(Tone::PortalOpen),
            ).does(Deed::Wifi(Wish::StartAp)).does(Deed::Light(Light::Portal))
        } else {
            self
        }
    }

    /// The access point closes after a while once the station is back.
    #[verifier::opaque]
    pub open spec fn closes_portal(self, at: Moment) -> Machine {
        if self.ap_active && self.credentials() && self.wifi_up && long_since(
            self.portal_since,
            at.now,
            PORTAL_IDLE,
        ) {
            Machine { ap_active: false, portal_since: None, ..self }.does(
                Deed::Wifi(Wish::StopAp),
            ).does(Deed::Light(self.light_up()))
        } else {
            self
        }
    }

    pub open spec fn restart_due(self, at: Moment) -> bool {
        self.restart_at matches Some(t) && at.now >= t
    }

    #[verifier::opaque]
    pub open spec fn ticked(self, at: Moment) -> Machine {
        let s = self.tick_step(at);
        let m = Machine {
            ticks: one_more(self.ticks),
            time_known: self.time_known || clock::valid(at.secs),
            ctl: s.after,
            ..self
        }.reports_health(at).confirms().opens_portal(at).closes_portal(at);
        if m.restart_due(at) {
            m.does(Deed::Restart)
        } else {
            m.applies(s.actions)
        }
    }

    // ----- network ----------------------------------------------------------------------------

    /// An open access point stays open for its full time once the station is back.
    pub open spec fn went_up(self, at: Moment) -> Machine {
        let m = Machine {
            wifi_up: true,
            sta_down_since: None,
            portal_since: if self.ap_active {
                Some(at.now)
            } else {
                self.portal_since
            },
            ..self
        };
        let a = if m.announced {
            m
        } else {
            m.does(Deed::Announce)
        };
        if a.ap_active {
            a
        } else {
            a.does(Deed::Light(a.light_up()))
        }
    }

    pub open spec fn went_down(self, at: Moment) -> Machine {
        let m = Machine {
            sta_down_since: if self.wifi_up || self.sta_down_since is None {
                Some(at.now)
            } else {
                self.sta_down_since
            },
            wifi_up: false,
            ..self
        };
        if m.ap_active {
            m
        } else {
            m.does(Deed::Light(Light::NoWifi))
        }
    }

    /// The button opens or closes the access point.
    pub open spec fn toggles_portal(self, at: Moment) -> Machine {
        if self.ap_active {
            Machine { ap_active: false, portal_since: None, ..self }.does(
                Deed::Play(Tone::PortalClose),
            ).does(Deed::Wifi(Wish::StopAp)).does(
                Deed::Light(
                    if self.wifi_up {
                        self.light_up()
                    } else {
                        Light::NoWifi
                    },
                ),
            )
        } else {
            Machine { ap_active: true, portal_since: Some(at.now), ..self }.does(
                Deed::Play(Tone::PortalOpen),
            ).does(Deed::Wifi(Wish::StartAp)).does(Deed::Light(Light::Portal))
        }
    }

    pub open spec fn asks_for_scan(self, at: Moment) -> Machine {
        if self.last_scan is Some && !long_since(self.last_scan, at.now, SCAN_PAUSE) {
            self
        } else {
            Machine { last_scan: Some(at.now), ..self }.does(Deed::Wifi(Wish::Scan))
        }
    }

    pub open spec fn provisioned(self, new: Net, at: Moment) -> Machine {
        let restarts = new.name != self.net.name || new.psk_b64 != self.net.psk_b64
            || new.friendly_name != self.net.friendly_name;
        Machine {
            sta_down_since: Some(at.now),
            restart_at: if restarts {
                Some((at.now + RESTART_DELAY) as u64)
            } else {
                self.restart_at
            },
            net: new,
            ..self
        }.does(Deed::SaveNet).does(
            Deed::Wifi(Wish::SetStation { ssid: new.ssid, pass: new.pass }),
        )
    }

    pub open spec fn told_of_update(self, t: Seq<char>) -> Machine {
        let m = if text::begins_with(t, "installed"@) {
            self.does(Deed::Play(Tone::OtaDone))
        } else if text::begins_with(t, "failed"@) {
            self.does(Deed::Play(Tone::Error))
        } else {
            self
        };
        m.sets(m.keys.ota_status, Reading::Text(t))
    }

    // ----- Home Assistant ---------------------------------------------------------------------

    #[verifier::opaque]
    pub open spec fn subscribed(self, at: Moment) -> Machine {
        let m = Machine {
            clients: if self.clients == usize::MAX {
                self.clients
            } else {
                (self.clients + 1) as usize
            },
            ..self
        };
        let s = if m.clients == 1 {
            m.ctl.connected(at.now).refresh(at.now, None)
        } else {
            arbiter::stay(m.ctl)
        };
        let l = if m.ap_active {
            m
        } else {
            m.does(Deed::Light(Light::Online))
        };
        l.steps(s)
    }

    #[verifier::opaque]
    pub open spec fn client_gone(self, at: Moment) -> Machine {
        let m = Machine {
            clients: if self.clients == 0 {
                0
            } else {
                (self.clients - 1) as usize
            },
            ..self
        };
        if m.clients > 0 {
            m
        } else {
            let l = if m.ap_active {
                m
            } else {
                m.does(
                    Deed::Light(
                        if m.wifi_up {
                            Light::WifiNoHa
                        } else {
                            Light::NoWifi
                        },
                    ),
                )
            };
            l.steps(m.ctl.disconnected().refresh(at.now, at.local()))
        }
    }

    #[verifier::opaque]
    pub open spec fn buzzer_switched(self, key: u32, on: bool) -> Machine {
        let m = self.with_ctl(self.ctl.with_buzzer(on)).does(Deed::Buzzer(on)).does(
            Deed::SaveConfig,
        ).sets(key, Reading::Bool(on));
        if on {
            m.does(Deed::Play(Tone::Boot))
        } else {
            m
        }
    }

    /// A step that changes the configuration: it is stored, the entity shows what was set, and
    /// the actions are applied.
    #[verifier::opaque]
    pub open spec fn configures(self, s: Step, key: u32, shown: Reading) -> Machine {
        self.with_ctl(s.after).does(Deed::SaveConfig).sets(key, shown).applies(s.actions)
    }

    /// The real state is echoed, so that HA never shows a phantom toggle.
    #[verifier::opaque]
    pub open spec fn relay_switched(self, ch: nat, key: u32, on: bool, at: Moment) -> Machine {
        let s = self.ctl.ha_command(ch as usize, on, at.now);
        self.with_ctl(s.after).publishes(key, Reading::Bool(s.after.relays[ch as int])).applies(
            s.actions,
        )
    }

    #[verifier::opaque]
    pub open spec fn switched(self, key: u32, on: bool, at: Moment) -> Machine {
        if key == self.keys.buzzer {
            self.buzzer_switched(key, on)
        } else if key == self.keys.exclusive {
            self.configures(self.ctl.with_exclusive(on), key, Reading::Bool(on))
        } else {
            match entities::channel(self.keys.relay@, key) {
                Some(ch) => self.relay_switched(ch, key, on, at),
                None => match entities::channel(self.keys.safe_state@, key) {
                    Some(ch) => self.configures(
                        self.ctl.with_safe_state(ch as usize, on).refresh(at.now, None),
                        key,
                        Reading::Bool(on),
                    ),
                    None => self,
                },
            }
        }
    }

    pub open spec fn hold_set(self, key: u32, hours: u32, at: Moment) -> Machine {
        let s = self.ctl.with_epoch(at.epoch()).with_rain_hold(hours).refresh(at.now, at.local());
        // Without the time there is no hold.
        let shown = if s.after.cfg.rain_hold_until > 0 {
            hours
        } else {
            0
        };
        self.configures(s, key, Reading::Float(number::float_of(shown as nat) as u32)).says_hold(
            at,
        )
    }

    /// A daily budget is set, and whether it blocks the relay is shown.
    pub open spec fn budget_set(self, ch: nat, key: u32, minutes: u16, at: Moment) -> Machine {
        self.configures(
            self.ctl.with_daily_cap(ch as usize, minutes).account(at.now, None),
            key,
            Reading::Float(number::float_of(minutes as nat) as u32),
        ).says_block(ch as usize)
    }

    #[verifier::opaque]
    pub open spec fn number_set(self, key: u32, bits: u32, at: Moment) -> Machine {
        match entities::channel(self.keys.max_on@, key) {
            Some(ch) => {
                let minutes = number::whole(bits, 1440) as u16;
                self.configures(
                    self.ctl.with_max_on(ch as usize, minutes).trip(at.now),
                    key,
                    Reading::Float(number::float_of(minutes as nat) as u32),
                )
            },
            None => match entities::channel(self.keys.max_daily@, key) {
                Some(ch) => self.budget_set(ch, key, number::whole(bits, 1440) as u16, at),
                None => if key == self.keys.rain_hold_hours {
                    self.hold_set(key, number::whole(bits, 72) as u32, at)
                } else {
                    self
                },
            },
        }
    }

    #[verifier::opaque]
    pub open spec fn selected(self, key: u32, option: Seq<char>, at: Moment) -> Machine {
        if key != self.keys.mode {
            self
        } else {
            match entities::option_mode(option) {
                Some(mode) => self.configures(
                    self.ctl.with_mode(mode, at.now, at.local()),
                    key,
                    Reading::Text(entities::label(mode)),
                ),
                None => self,
            }
        }
    }

    pub open spec fn pressed(self, key: u32) -> Machine {
        if key == self.keys.all_off {
            self.steps(self.ctl.drop_to(arbiter::all_false()))
        } else if key == self.keys.restart {
            self.does(Deed::Restart)
        } else if key == self.keys.clear_crash {
            self.does(Deed::ClearCrash).sets(self.keys.last_crash, Reading::Text("none"@))
        } else {
            self
        }
    }

    /// A schedule is stored and followed.
    #[verifier::opaque]
    pub open spec fn follows(self, s: Schedule, at: Moment) -> Machine {
        let step = self.ctl.with_schedule(s).refresh(at.now, at.local());
        self.with_ctl(step.after).does(Deed::SaveSchedule).says_schedule(s, None).applies(
            step.actions,
        )
    }

    /// `empty` is the schedule that clearing leaves.
    #[verifier::opaque]
    pub open spec fn service(
        self,
        key: u32,
        args: Seq<Seq<Value>>,
        at: Moment,
        empty: Schedule,
    ) -> Machine {
        if key == self.keys.set_schedule {
            self.does(Deed::Parse(first_text(args)))
        } else if key == self.keys.clear_schedule {
            self.follows(empty, at)
        } else if key == self.keys.ota {
            let url = text::trimmed(first_text(args));
            if self.updating {
                self
            } else if !text::begins_with(url, "http"@) {
                self.does(Deed::Report("rejected url "@ + text::quoted(url)))
            } else {
                Machine { updating: true, ..self }.does(Deed::Fetch(url))
            }
        } else {
            self
        }
    }

    /// A timezone is taken over.
    pub open spec fn adopts(self, tz: Seq<char>) -> Machine {
        if tz.len() > 0 && tz != self.tz {
            Machine { tz, ..self }.does(Deed::SetTz).does(Deed::SaveTz)
        } else {
            self
        }
    }

    /// The clock has been set.
    #[verifier::opaque]
    pub open spec fn learns_time(self, at: Moment) -> Machine {
        let m = self.sets(self.keys.local_time, Reading::Text(clock::shown(at.local())));
        if m.time_known {
            m
        } else {
            let k = Machine { time_known: true, ..m };
            match at.local() {
                Some(l) => k.steps(k.ctl.with_time_known().refresh(at.now, Some(l))),
                None => k,
            }
        }
    }

    pub open spec fn ordered(self, o: Order, at: Moment, empty: Schedule) -> Machine {
        match o {
            Order::ClientSubscribed { client_info } => self.subscribed(at),
            Order::ClientGone { subscribed } => if subscribed {
                self.client_gone(at)
            } else {
                self
            },
            Order::Switch { key, on } => self.switched(key, on, at),
            Order::Number { key, value } => self.number_set(key, value, at),
            Order::Select { key, option } => self.selected(key, option, at),
            Order::Button { key } => self.pressed(key),
            Order::Service { key, args } => self.service(key, args, at, empty),
            Order::Time { epoch_seconds, timezone } => self.does(
                Deed::SetEpoch(epoch_seconds),
            ).adopts(timezone).does(Deed::TimeSet),
        }
    }

    /// The main loop reacts. `empty` is the schedule that clearing leaves.
    pub open spec fn reacts(self, s: Signal, at: Moment, empty: Schedule) -> Machine {
        match s {
            Signal::Tick => self.ticked(at),
            Signal::WifiUp(ip) => self.went_up(at),
            Signal::WifiDown => self.went_down(at),
            Signal::LongPress => self.toggles_portal(at),
            Signal::FactoryReset => self.does(Deed::Play(Tone::FactoryReset)).does(
                Deed::FactoryReset,
            ),
            Signal::PortalScan => self.asks_for_scan(at),
            Signal::Provision(new) => self.provisioned(new, at),
            Signal::Rssi(v) => self.publishes(
                self.keys.rssi,
                Reading::Float(number::signed_float_of(v as int) as u32),
            ),
            Signal::OtaStatus(t) => self.told_of_update(t),
            Signal::Api(o) => self.ordered(o, at, empty),
            Signal::Schedule(r) => match r {
                Ok(s) => self.follows(s, at),
                Err(e) => self.says_schedule(self.ctl.schedule, Some(e)),
            },
            Signal::TimeSet => self.learns_time(at),
        }
    }

    /// All states as they are when the device starts.
    pub open spec fn says_all(self, at: Moment) -> Machine {
        self.says_relays(CHANNELS as nat).sets(
            self.keys.mode,
            Reading::Text(entities::label(self.ctl.cfg.mode)),
        ).sets(self.keys.exclusive, Reading::Bool(self.ctl.cfg.exclusive)).sets(
            self.keys.buzzer,
            Reading::Bool(self.ctl.cfg.buzzer),
        ).sets(self.keys.link, Reading::Text(self.ctl.link_now().name())).sets(
            self.keys.local_time,
            Reading::Text(clock::shown(at.local())),
        ).sets(self.keys.uptime, Reading::Float(0)).says_hold(at).says_heap(at).says_schedule(
            self.ctl.schedule,
            None,
        )
    }

    /// The states of the first `n` relays.
    pub open spec fn says_relays(self, n: nat) -> Machine
        decreases n,
    {
        if n == 0 {
            self
        } else {
            let ch = n - 1;
            self.says_relays((n - 1) as nat).sets(
                self.keys.relay@[ch],
                Reading::Bool(self.ctl.relays[ch]),
            ).sets(
                self.keys.max_on@[ch],
                Reading::Float(
                    number::float_of(self.ctl.cfg.channels[ch].max_on_min as nat) as u32,
                ),
            ).sets(self.keys.tripped@[ch], Reading::Bool(false)).sets(
                self.keys.safe_state@[ch],
                Reading::Bool(self.ctl.cfg.channels[ch].safe_state),
            ).sets(
                self.keys.max_daily@[ch],
                Reading::Float(
                    number::float_of(self.ctl.cfg.channels[ch].max_daily_min as nat) as u32,
                ),
            ).sets(
                self.keys.on_today@[ch],
                Reading::Float(
                    number::float_of(arbiter::minutes(self.ctl.on_today_ms[ch]) as nat) as u32,
                ),
            ).sets(
                self.keys.total_on@[ch],
                Reading::Float(
                    number::float_of(arbiter::minutes(self.ctl.total_ms[ch]) as nat) as u32,
                ),
            ).says_block(ch as usize)
        }
    }

    /// What is left when everything has been done.
    pub open spec fn quiet(self) -> Machine {
        Machine { deeds: seq![], ..self }
    }
}

// ----- what stays ------------------------------------------------------------------------------------

/// Setting a state touches the states and what is to be done only.
pub broadcast proof fn lemma_sets(m: Machine, key: u32, r: Reading)
    ensures
        (#[trigger] m.sets(key, r)) == (Machine {
            world: m.sets(key, r).world,
            deeds: m.sets(key, r).deeds,
            ..m
        }),
{
    reveal(Machine::sets);
}

impl Machine {
    /// Everything is as it was but the states and what is to be done.
    pub open spec fn same_but_said(self, old: Machine) -> bool {
        self == Machine { world: self.world, deeds: self.deeds, ..old }
    }

    /// Controller, keys and the number of flags are as they were.
    pub open spec fn keeps(self, old: Machine) -> bool {
        self.ctl == old.ctl && self.keys == old.keys && self.tripped.len() == old.tripped.len()
    }
}

/// Applying actions touches the states, the flags and what is to be done only.
pub proof fn lemma_applies_keeps(m: Machine, actions: Seq<Action>)
    requires
        m.tripped.len() == CHANNELS,
    ensures
        m.applies(actions).keeps(m),
        m.applies(actions) == (Machine {
            world: m.applies(actions).world,
            tripped: m.applies(actions).tripped,
            deeds: m.applies(actions).deeds,
            ..m
        }),
    decreases actions.len(),
{
    broadcast use lemma_sets;

    if actions.len() > 0 {
        lemma_applies_keeps(m, actions.drop_last());
    }
}

/// The states of the relays leave the controller alone.
pub proof fn lemma_relays_keep(m: Machine, n: nat)
    ensures
        m.says_relays(n).keeps(m),
    decreases n,
{
    broadcast use lemma_sets;

    if n > 0 {
        lemma_relays_keep(m, (n - 1) as nat);
    }
}

/// A blank schedule has no blocks.
pub proof fn lemma_blank(s: Schedule)
    requires
        blank(s),
    ensures
        s.blocks() == 0,
{
    broadcast use lemma_sets;

    reveal_with_fuel(schedule::blocks_below, 7);
}

/// A new schedule can be counted.
pub open spec fn countable(s: Signal) -> bool {
    s matches Signal::Schedule(Ok(n)) ==> n.blocks() <= usize::MAX
}

proof fn lemma_steps_keep(m: Machine, s: Step)
    requires
        m.tripped.len() == CHANNELS,
    ensures
        m.steps(s).ctl == s.after,
        m.steps(s).tripped.len() == CHANNELS,
{
    broadcast use lemma_sets;

    lemma_applies_keeps(m.with_ctl(s.after), s.actions);
}

proof fn lemma_configures_keep(m: Machine, s: Step, key: u32, shown: Reading)
    requires
        m.tripped.len() == CHANNELS,
    ensures
        m.configures(s, key, shown).ctl == s.after,
        m.configures(s, key, shown).tripped.len() == CHANNELS,
{
    broadcast use lemma_sets;

    reveal(Machine::configures);
    lemma_applies_keeps(
        m.with_ctl(s.after).does(Deed::SaveConfig).sets(key, shown),
        s.actions,
    );
}

/// A step that changes the configuration leaves the keys alone.
pub proof fn lemma_configures_keys(m: Machine, s: Step, key: u32, shown: Reading)
    requires
        m.tripped.len() == CHANNELS,
    ensures
        m.configures(s, key, shown).keys == m.keys,
        m.configures(s, key, shown).ctl == s.after,
{
    broadcast use lemma_sets;

    reveal(Machine::configures);
    lemma_applies_keeps(
        m.with_ctl(s.after).does(Deed::SaveConfig).sets(key, shown),
        s.actions,
    );
}

proof fn lemma_tick_keeps(m: Machine, at: Moment)
    requires
        m.wf(),
    ensures
        m.ticked(at).ctl.schedule == m.ctl.schedule,
        m.ticked(at).tripped.len() == CHANNELS,
{
    broadcast use lemma_sets;

    reveal(Machine::ticked);
    reveal(Machine::tick_step);
    reveal(Machine::reports_health);
    reveal(Machine::confirms);
    reveal(Machine::opens_portal);
    reveal(Machine::closes_portal);
    let c = m.ctl.with_epoch(at.epoch());
    let local = at.local();
    let mut d = c;
    if !m.time_known && clock::valid(at.secs) && local is Some {
        laws::law_only_a_new_schedule_replaces_the_old(
            c,
            Input::TimeKnown { now: at.now, at: local->0 },
        );
        laws::lemma_refresh_shaped(c.with_time_known(), at.now, local);
        d = c.with_time_known().refresh(at.now, local).after;
    }
    laws::law_only_a_new_schedule_replaces_the_old(d, Input::Tick { now: at.now, local });
    let s = m.tick_step(at);
    let n = Machine {
        ticks: one_more(m.ticks),
        time_known: m.time_known || clock::valid(at.secs),
        ctl: s.after,
        ..m
    }.reports_health(at).confirms().opens_portal(at).closes_portal(at);
    lemma_applies_keeps(n, s.actions);
}

proof fn lemma_follows_keep(m: Machine, s: Schedule, at: Moment)
    requires
        m.wf(),
    ensures
        m.follows(s, at).ctl.schedule == s,
        m.follows(s, at).tripped.len() == CHANNELS,
{
    broadcast use lemma_sets;

    reveal(Machine::follows);
    let input = Input::SetSchedule { schedule: s, now: at.now, local: at.local() };
    laws::law_only_a_new_schedule_replaces_the_old(m.ctl, input);
    let step = m.ctl.taken(input);
    lemma_applies_keeps(
        m.with_ctl(step.after).does(Deed::SaveSchedule).says_schedule(s, None),
        step.actions,
    );
}

proof fn lemma_subscribed_keeps(m: Machine, at: Moment)
    requires
        m.wf(),
    ensures
        m.subscribed(at).ctl.schedule == m.ctl.schedule,
        m.subscribed(at).tripped.len() == CHANNELS,
{
    broadcast use lemma_sets;

    reveal(Machine::subscribed);
    let input = Input::HaConnected { now: at.now };
    laws::law_only_a_new_schedule_replaces_the_old(m.ctl, input);
    let n = Machine {
        clients: if m.clients == usize::MAX {
            m.clients
        } else {
            (m.clients + 1) as usize
        },
        ..m
    };
    let l = if n.ap_active {
        n
    } else {
        n.does(Deed::Light(Light::Online))
    };
    lemma_steps_keep(l, m.ctl.taken(input));
    lemma_steps_keep(l, arbiter::stay(m.ctl));
}

proof fn lemma_gone_keeps(m: Machine, at: Moment)
    requires
        m.wf(),
    ensures
        m.client_gone(at).ctl.schedule == m.ctl.schedule,
        m.client_gone(at).tripped.len() == CHANNELS,
{
    broadcast use lemma_sets;

    reveal(Machine::client_gone);
    let input = Input::HaDisconnected { now: at.now, local: at.local() };
    laws::law_only_a_new_schedule_replaces_the_old(m.ctl, input);
    let n = Machine {
        clients: if m.clients == 0 {
            0
        } else {
            (m.clients - 1) as usize
        },
        ..m
    };
    let light = if n.wifi_up {
        Light::WifiNoHa
    } else {
        Light::NoWifi
    };
    lemma_steps_keep(n, m.ctl.taken(input));
    lemma_steps_keep(n.does(Deed::Light(light)), m.ctl.taken(input));
}

proof fn lemma_switched_keeps(m: Machine, key: u32, on: bool, at: Moment)
    requires
        m.wf(),
    ensures
        m.switched(key, on, at).ctl.schedule == m.ctl.schedule,
        m.switched(key, on, at).tripped.len() == CHANNELS,
{
    broadcast use lemma_sets;

    reveal(Machine::switched);
    let a = m.ctl;
    if key == m.keys.buzzer {
        reveal(Machine::buzzer_switched);
    } else if key == m.keys.exclusive {
        let input = Input::SetExclusive { on, now: at.now };
        laws::law_only_a_new_schedule_replaces_the_old(a, input);
        lemma_configures_keep(m, a.with_exclusive(on), key, Reading::Bool(on));
    } else if let Some(ch) = entities::channel(m.keys.relay@, key) {
        let input = Input::HaCommand { ch: ch as usize, on, now: at.now };
        laws::law_only_a_new_schedule_replaces_the_old(a, input);
        let s = a.taken(input);
        reveal(Machine::relay_switched);
        lemma_applies_keeps(
            m.with_ctl(s.after).publishes(key, Reading::Bool(s.after.relays[ch as int])),
            s.actions,
        );
    } else if let Some(ch) = entities::channel(m.keys.safe_state@, key) {
        let input = Input::SetSafeState { ch: ch as usize, on, now: at.now };
        laws::law_only_a_new_schedule_replaces_the_old(a, input);
        lemma_configures_keep(m, a.taken(input), key, Reading::Bool(on));
    }
}

proof fn lemma_number_keeps(m: Machine, key: u32, bits: u32, at: Moment)
    requires
        m.wf(),
    ensures
        m.number_set(key, bits, at).ctl.schedule == m.ctl.schedule,
        m.number_set(key, bits, at).tripped.len() == CHANNELS,
{
    broadcast use lemma_sets;

    reveal(Machine::number_set);
    if let Some(ch) = entities::channel(m.keys.max_on@, key) {
        let minutes = number::whole(bits, 1440) as u16;
        let input = Input::SetMaxOn { ch: ch as usize, minutes, now: at.now };
        laws::law_only_a_new_schedule_replaces_the_old(m.ctl, input);
        let shown = Reading::Float(number::float_of(minutes as nat) as u32);
        lemma_configures_keep(m, m.ctl.taken(input), key, shown);
    } else if let Some(ch) = entities::channel(m.keys.max_daily@, key) {
        let minutes = number::whole(bits, 1440) as u16;
        let input = Input::SetMaxDaily { ch: ch as usize, minutes, now: at.now };
        laws::law_only_a_new_schedule_replaces_the_old(m.ctl, input);
        let shown = Reading::Float(number::float_of(minutes as nat) as u32);
        lemma_configures_keep(m, m.ctl.taken(input), key, shown);
    } else {
        let hours = number::whole(bits, 72) as u32;
        let b = m.ctl.with_epoch(at.epoch());
        let input = Input::SetRainHold { hours, now: at.now, local: at.local() };
        laws::law_only_a_new_schedule_replaces_the_old(b, input);
        let s = b.taken(input);
        let shown = if s.after.cfg.rain_hold_until > 0 {
            hours
        } else {
            0
        };
        let shown = Reading::Float(number::float_of(shown as nat) as u32);
        lemma_configures_keep(m, s, key, shown);
    }
}

proof fn lemma_selected_keeps(m: Machine, key: u32, option: Seq<char>, at: Moment)
    requires
        m.wf(),
    ensures
        m.selected(key, option, at).ctl.schedule == m.ctl.schedule,
        m.selected(key, option, at).tripped.len() == CHANNELS,
{
    broadcast use lemma_sets;

    reveal(Machine::selected);
    if let Some(mode) = entities::option_mode(option) {
        let input = Input::SetMode { mode, now: at.now, local: at.local() };
        laws::law_only_a_new_schedule_replaces_the_old(m.ctl, input);
        let shown = Reading::Text(entities::label(mode));
        lemma_configures_keep(m, m.ctl.taken(input), key, shown);
    }
}

proof fn lemma_time_keeps(m: Machine, at: Moment)
    requires
        m.wf(),
    ensures
        m.learns_time(at).ctl.schedule == m.ctl.schedule,
        m.learns_time(at).tripped.len() == CHANNELS,
{
    broadcast use lemma_sets;

    reveal(Machine::learns_time);
    if let Some(l) = at.local() {
        let input = Input::TimeKnown { now: at.now, at: l };
        laws::law_only_a_new_schedule_replaces_the_old(m.ctl, input);
        let k = Machine {
            time_known: true,
            ..m.sets(m.keys.local_time, Reading::Text(clock::shown(at.local())))
        };
        lemma_steps_keep(k, m.ctl.taken(input));
    }
}

proof fn lemma_ordered_keeps(m: Machine, o: Order, at: Moment, empty: Schedule)
    requires
        m.wf(),
        blank(empty),
    ensures
        m.ordered(o, at, empty).ctl.schedule.blocks() <= usize::MAX,
        m.ordered(o, at, empty).tripped.len() == CHANNELS,
{
    broadcast use lemma_sets;

    match o {
        Order::ClientSubscribed { client_info } => {
            lemma_subscribed_keeps(m, at);
        },
        Order::ClientGone { subscribed } => {
            lemma_gone_keeps(m, at);
        },
        Order::Switch { key, on } => {
            lemma_switched_keeps(m, key, on, at);
        },
        Order::Number { key, value } => {
            lemma_number_keeps(m, key, value, at);
        },
        Order::Select { key, option } => {
            lemma_selected_keeps(m, key, option, at);
        },
        Order::Button { key } => {
            lemma_steps_keep(m, m.ctl.drop_to(arbiter::all_false()));
        },
        Order::Service { key, args } => {
            reveal(Machine::service);
            lemma_blank(empty);
            lemma_follows_keep(m, empty, at);
        },
        Order::Time { epoch_seconds, timezone } => {},
    }
}

/// Whatever the main loop reacts to, its schedule can still be counted, and there is a flag for
/// every relay.
pub proof fn lemma_reacts_keeps(m: Machine, s: Signal, at: Moment, empty: Schedule)
    requires
        m.wf(),
        countable(s),
        blank(empty),
    ensures
        m.reacts(s, at, empty).ctl.schedule.blocks() <= usize::MAX,
        m.reacts(s, at, empty).tripped.len() == CHANNELS,
{
    broadcast use lemma_sets;

    match s {
        Signal::Tick => {
            lemma_tick_keeps(m, at);
        },
        Signal::Api(o) => {
            lemma_ordered_keeps(m, o, at, empty);
        },
        Signal::Schedule(r) => {
            if let Ok(n) = r {
                lemma_follows_keep(m, n, at);
            }
        },
        Signal::TimeSet => {
            lemma_time_keeps(m, at);
        },
        _ => {},
    }
}

// ----- start -----------------------------------------------------------------------------------------

/// The state before anything has been said.
pub open spec fn fresh(
    ctl: Arbiter,
    world: World,
    keys: Keys,
    tz: Seq<char>,
    net: Net,
    at: Moment,
) -> Machine {
    Machine {
        ctl,
        world,
        keys,
        tz,
        net,
        ap_active: net.ssid.len() == 0,
        announced: false,
        wifi_up: false,
        sta_down_since: Some(at.now),
        portal_since: if net.ssid.len() == 0 {
            Some(at.now)
        } else {
            None
        },
        last_scan: None,
        restart_at: None,
        clients: 0,
        time_known: false,
        ticks: 0,
        tripped: arbiter::all_false(),
        confirmed: false,
        updating: false,
        deeds: seq![],
    }
}

/// What is known of how the device came to start.
pub struct Boot {
    /// The version that runs.
    pub version: Seq<char>,
    /// Why the board was reset.
    pub reset_reason: Seq<char>,
    /// The report on the last crash.
    pub last_crash: Seq<char>,
}

/// A device without credentials opens its access point; all states are published, and the buzzer
/// sounds.
pub open spec fn started(
    ctl: Arbiter,
    world: World,
    keys: Keys,
    tz: Seq<char>,
    net: Net,
    boot: Boot,
    at: Moment,
) -> Machine {
    let m = fresh(ctl, world, keys, tz, net, at).says_all(at);
    let l = if m.ap_active {
        m.does(Deed::Light(Light::Portal))
    } else {
        m
    };
    l.does(Deed::Play(Tone::Boot)).sets(
        keys.ota_status,
        Reading::Text(boot.version + " idle"@),
    ).sets(keys.reset_reason, Reading::Text(boot.reset_reason)).sets(
        keys.last_crash,
        Reading::Text(boot.last_crash),
    )
}

/// Starting leaves the controller and the access point as given.
pub proof fn lemma_started(
    ctl: Arbiter,
    world: World,
    keys: Keys,
    tz: Seq<char>,
    net: Net,
    boot: Boot,
    at: Moment,
)
    ensures
        started(ctl, world, keys, tz, net, boot, at).keeps(
            fresh(ctl, world, keys, tz, net, at),
        ),
        fresh(ctl, world, keys, tz, net, at).says_all(at).ap_active == (net.ssid.len() == 0),
{
    broadcast use lemma_sets;

    let m = fresh(ctl, world, keys, tz, net, at);
    lemma_relays_keep(m, CHANNELS as nat);
    lemma_relays_portal(m, CHANNELS as nat);
}

proof fn lemma_relays_portal(m: Machine, n: nat)
    ensures
        m.says_relays(n).ap_active == m.ap_active,
    decreases n,
{
    broadcast use lemma_sets;

    if n > 0 {
        lemma_relays_portal(m, (n - 1) as nat);
    }
}

} // verus!
