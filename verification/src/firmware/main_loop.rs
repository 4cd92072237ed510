//! The firmware's main loop: what a message changes, and what is to be done about it.
//!
//! The application owns pins, radio, storage and sockets. It hands over what happens as [`Msg`]s
//! and does what comes back, in order. What each message does is stated over the state machine in
//! [`crate::firmware::machine`].

use vstd::prelude::*;
use vstd::string::*;

use crate::api::entity::State;
use crate::api::proto::ExecuteServiceArgument;
use crate::api::server::{Outbound, Server};
use crate::api::session::Command;
use crate::arbiter;
use crate::arbiter::Action;
use crate::board::CHANNELS;
use crate::config::Config;
use crate::controller::{Controller, Usage};
use crate::firmware::buzzer::Tone;
use crate::firmware::clock;
use crate::firmware::clock::Clock;
use crate::firmware::entities;
use crate::firmware::entities::Keys;
use crate::firmware::machine;
use crate::firmware::machine::{
    Deed, Light, Machine, Moment, Signal, PORTAL_AFTER_OFFLINE, PORTAL_IDLE, RESTART_DELAY,
    SCAN_PAUSE,
};
use crate::firmware::number;
use crate::firmware::settings::NetSettings;
use crate::firmware::wifi::WifiCmd;
use crate::laws;
use crate::rules::Input;
use crate::schedule::{LocalTime, Schedule};
use crate::text;

verus! {

broadcast use machine::lemma_sets;

impl Light {
    /// Red, green and blue.
    pub open spec fn colour(self) -> (u8, u8, u8) {
        match self {
            Light::NoWifi => (24, 0, 0),
            Light::WifiNoHa => (24, 12, 0),
            Light::Online => (0, 16, 0),
            Light::Portal => (0, 0, 28),
        }
    }

    pub fn rgb(self) -> (r: (u8, u8, u8))
        ensures
            r == self.colour(),
    {
        match self {
            Light::NoWifi => (24, 0, 0),
            Light::WifiNoHa => (24, 12, 0),
            Light::Online => (0, 16, 0),
            Light::Portal => (0, 0, 28),
        }
    }
}

/// Something to be done. [`Deed`] says what each means.
#[derive(Debug)]
pub enum Effect {
    Relay { ch: usize, on: bool },
    Light(Light),
    Play(Tone),
    Buzzer(bool),
    Send(Outbound),
    SaveConfig,
    SaveUsage,
    SaveSchedule,
    SetTz,
    SaveTz,
    SetEpoch(u32),
    TimeSet,
    SaveNet,
    Wifi(WifiCmd),
    Announce,
    Confirm,
    Restart,
    FactoryReset,
    Fetch(String),
    Report(String),
    Parse(String),
    ClearCrash,
}

impl View for Effect {
    type V = Deed;

    open spec fn view(&self) -> Deed {
        match self {
            Effect::Relay { ch, on } => Deed::Relay { ch: *ch, on: *on },
            Effect::Light(l) => Deed::Light(*l),
            Effect::Play(t) => Deed::Play(*t),
            Effect::Buzzer(on) => Deed::Buzzer(*on),
            Effect::Send(o) => Deed::Send(o@),
            Effect::SaveConfig => Deed::SaveConfig,
            Effect::SaveUsage => Deed::SaveUsage,
            Effect::SaveSchedule => Deed::SaveSchedule,
            Effect::SetTz => Deed::SetTz,
            Effect::SaveTz => Deed::SaveTz,
            Effect::SetEpoch(e) => Deed::SetEpoch(*e),
            Effect::TimeSet => Deed::TimeSet,
            Effect::SaveNet => Deed::SaveNet,
            Effect::Wifi(c) => Deed::Wifi(c@),
            Effect::Announce => Deed::Announce,
            Effect::Confirm => Deed::Confirm,
            Effect::Restart => Deed::Restart,
            Effect::FactoryReset => Deed::FactoryReset,
            Effect::Fetch(url) => Deed::Fetch(url@),
            Effect::Report(t) => Deed::Report(t@),
            Effect::Parse(json) => Deed::Parse(json@),
            Effect::ClearCrash => Deed::ClearCrash,
        }
    }
}

/// Effects, as contracts speak of them.
pub open spec fn deeds(v: Seq<Effect>) -> Seq<Deed> {
    v.map_values(|e: Effect| e@)
}

/// Everything the main loop reacts to.
#[derive(Debug)]
pub enum Msg {
    Api(Command),
    Tick,
    WifiUp(String),
    WifiDown,
    Rssi(i32),
    OtaStatus(String),
    LongPress,
    FactoryReset,
    PortalScan,
    Provision(NetSettings),
    /// The schedule that [`Effect::Parse`] asked for, or what is wrong with it.
    Schedule(Result<Schedule, String>),
    /// The clock has been set, as [`Effect::TimeSet`] asked.
    TimeSet,
}

impl View for Msg {
    type V = Signal;

    open spec fn view(&self) -> Signal {
        match self {
            Msg::Api(c) => Signal::Api(c@),
            Msg::Tick => Signal::Tick,
            Msg::WifiUp(ip) => Signal::WifiUp(ip@),
            Msg::WifiDown => Signal::WifiDown,
            Msg::Rssi(v) => Signal::Rssi(*v),
            Msg::OtaStatus(t) => Signal::OtaStatus(t@),
            Msg::LongPress => Signal::LongPress,
            Msg::FactoryReset => Signal::FactoryReset,
            Msg::PortalScan => Signal::PortalScan,
            Msg::Provision(n) => Signal::Provision(n@),
            Msg::Schedule(r) => Signal::Schedule(
                match r {
                    Ok(s) => Ok(*s),
                    Err(e) => Err(e@),
                },
            ),
            Msg::TimeSet => Signal::TimeSet,
        }
    }
}

impl From<Command> for Msg {
    fn from(c: Command) -> (r: Msg) {
        Msg::Api(c)
    }
}

impl vstd::std_specs::convert::FromSpecImpl<Command> for Msg {
    open spec fn obeys_from_spec() -> bool {
        true
    }

    open spec fn from_spec(c: Command) -> Msg {
        Msg::Api(c)
    }
}

/// What is known of how the device came to start.
#[derive(Debug)]
pub struct Boot {
    /// The version that runs.
    pub version: String,
    /// Why the board was reset.
    pub reset_reason: String,
    /// The report on the last crash.
    pub last_crash: String,
}

impl View for Boot {
    type V = machine::Boot;

    open spec fn view(&self) -> machine::Boot {
        machine::Boot {
            version: self.version@,
            reset_reason: self.reset_reason@,
            last_crash: self.last_crash@,
        }
    }
}

/// The firmware between two messages.
#[derive(Debug)]
pub struct Firmware {
    ctl: Controller,
    server: Server,
    keys: Keys,
    clock: Clock,
    net: NetSettings,
    ap_active: bool,
    announced: bool,
    wifi_up: bool,
    sta_down_since: Option<u64>,
    portal_since: Option<u64>,
    last_scan: Option<u64>,
    restart_at: Option<u64>,
    clients: usize,
    time_known: bool,
    ticks: u64,
    tripped: [bool; CHANNELS],
    confirmed: bool,
    updating: bool,
    out: Vec<Effect>,
}

impl View for Firmware {
    type V = Machine;

    closed spec fn view(&self) -> Machine {
        Machine {
            ctl: self.ctl@,
            world: self.server@,
            keys: self.keys,
            tz: self.clock@,
            net: self.net@,
            ap_active: self.ap_active,
            announced: self.announced,
            wifi_up: self.wifi_up,
            sta_down_since: self.sta_down_since,
            portal_since: self.portal_since,
            last_scan: self.last_scan,
            restart_at: self.restart_at,
            clients: self.clients,
            time_known: self.time_known,
            ticks: self.ticks,
            tripped: self.tripped@,
            confirmed: self.confirmed,
            updating: self.updating,
            deeds: deeds(self.out@),
        }
    }
}

/// More than `limit` milliseconds have passed since then.
fn long_since(since: Option<u64>, now: u64, limit: u64) -> (r: bool)
    ensures
        r == machine::long_since(since, now, limit),
{
    match since {
        Some(t) => now.saturating_sub(t) > limit,
        None => false,
    }
}

/// The text in a service's first argument.
fn first_text(args: &Vec<ExecuteServiceArgument>) -> (r: String)
    ensures
        r@ == machine::first_text(args@.map_values(|a: ExecuteServiceArgument| a.values())),
{
    if args.len() > 0 {
        args[0].string.clone()
    } else {
        String::new()
    }
}

/// What is said about the stored schedule, or about one that was rejected.
fn schedule_text(s: &Schedule, error: Option<&str>) -> (r: String)
    requires
        s.blocks() <= usize::MAX,
    ensures
        r@ == machine::schedule_text(
            *s,
            match error {
                Some(e) => Some(e@),
                None => None,
            },
        ),
{
    match error {
        Some(e) => {
            let mut t = String::from_str("rejected: ");
            t.append(e);
            t
        },
        None => {
            let blocks = s.block_count();
            if blocks == 0 {
                return String::from_str("none");
            }
            let mut t = String::from_str("rev ");
            text::push_decimal(&mut t, s.rev as u64);
            t.append(", ");
            text::push_decimal(&mut t, blocks as u64);
            t.append(" blocks, tz ");
            if s.tz.as_str().is_empty() {
                t.append("-");
            } else {
                t.append(s.tz.as_str());
            }
            t
        },
    }
}

impl Firmware {
    // ----- doing things -----------------------------------------------------------------------

    fn emit(&mut self, e: Effect)
        ensures
            final(self)@ == old(self)@.does(e@),
    {
        let ghost before = self.out@;
        self.out.push(e);
        assert(deeds(self.out@) =~= deeds(before).push(e@));
    }

    /// Record a state, and send it if it is new.
    fn set(&mut self, key: u32, state: State)
        ensures
            final(self)@ == old(self)@.sets(key, state@),
            final(self)@ == (Machine {
                world: final(self)@.world,
                deeds: final(self)@.deeds,
                ..old(self)@
            }),
    {
        let ghost m = self@;
        proof {
            reveal(Machine::sets);
        }
        if let Some(o) = self.server.set_state(key, state) {
            self.emit(Effect::Send(o));
        }
        assert(self@ =~= m.sets(key, state@));
    }

    /// Record a state and send it.
    fn publish(&mut self, key: u32, state: State)
        ensures
            final(self)@ == old(self)@.publishes(key, state@),
    {
        let o = self.server.publish_state(key, state);
        self.emit(Effect::Send(o));
    }

    /// Show whether a relay is blocked by its daily budget.
    fn say_block(&mut self, ch: usize)
        requires
            ch < CHANNELS,
        ensures
            final(self)@ == old(self)@.says_block(ch),
    {
        let blocked = self.ctl.daily_capped()[ch];
        self.set(self.keys.daily_limit[ch], State::Bool(blocked));
    }

    /// Show until when the rain hold stands.
    fn say_hold(&mut self, at: Moment)
        requires
            at.sane(),
        ensures
            final(self)@ == old(self)@.says_hold(at),
    {
        let local = self.local(at);
        let shown = self.clock.hold_string(self.ctl.rain_hold_until(), at.secs, local);
        self.set(self.keys.rain_hold, State::Text(shown));
    }

    /// Apply an action of the controller.
    fn act(&mut self, a: &Action)
        requires
            old(self)@.tripped.len() == CHANNELS,
        ensures
            final(self)@ == old(self)@.acts(*a),
    {
        let ghost m = self@;
        match a {
            Action::SetRelay { ch, on } => {
                if *ch < CHANNELS {
                    let was_tripped = self.tripped[*ch];
                    self.emit(Effect::Relay { ch: *ch, on: *on });
                    self.set(self.keys.relay[*ch], State::Bool(*on));
                    if *on && was_tripped {
                        self.tripped[*ch] = false;
                        self.set(self.keys.tripped[*ch], State::Bool(false));
                    }
                }
            },
            Action::LinkChanged(link) => {
                self.set(self.keys.link, State::Text(link.as_str().to_owned()));
            },
            Action::SafeguardTripped { ch } => {
                if *ch < CHANNELS {
                    self.emit(Effect::Play(Tone::Safeguard));
                    self.tripped[*ch] = true;
                    self.set(self.keys.tripped[*ch], State::Bool(true));
                }
            },
            Action::RainHoldEnded => {
                self.emit(Effect::SaveConfig);
                self.set(self.keys.rain_hold_hours, State::Float(0));
                self.set(self.keys.rain_hold, State::Text(String::from_str("none")));
            },
            Action::DailyUsage { ch, minutes, total_minutes } => {
                self.emit(Effect::SaveUsage);
                if *ch < CHANNELS {
                    let today = number::float_bits(*minutes as u64);
                    let total = number::float_bits(*total_minutes as u64);
                    self.set(self.keys.on_today[*ch], State::Float(today));
                    self.set(self.keys.total_on[*ch], State::Float(total));
                    self.say_block(*ch);
                }
            },
            Action::DailyCapReached { ch } => {
                if *ch < CHANNELS {
                    self.say_block(*ch);
                }
            },
            _ => {},
        }
        assert(self@ =~= m.acts(*a));
    }

    /// Apply the actions of the controller, in order.
    fn apply(&mut self, actions: Vec<Action>)
        requires
            old(self)@.tripped.len() == CHANNELS,
        ensures
            final(self)@ == old(self)@.applies(actions@),
    {
        let ghost m = self@;
        let mut i: usize = 0;
        assert(actions@.take(0) =~= seq![]);
        while i < actions.len()
            invariant
                i <= actions@.len(),
                m.tripped.len() == CHANNELS,
                self@ == m.applies(actions@.take(i as int)),
            decreases actions.len() - i,
        {
            proof {
                machine::lemma_applies_keeps(m, actions@.take(i as int));
                assert(actions@.take(i + 1).drop_last() =~= actions@.take(i as int));
            }
            self.act(&actions[i]);
            i += 1;
        }
        assert(actions@.take(i as int) =~= actions@);
    }

    /// Say what is known of the stored schedule.
    fn say_stored_schedule(&mut self, error: Option<&str>)
        requires
            old(self)@.ctl.schedule.blocks() <= usize::MAX,
        ensures
            final(self)@ == old(self)@.says_schedule(
                old(self)@.ctl.schedule,
                match error {
                    Some(e) => Some(e@),
                    None => None,
                },
            ),
    {
        let s = self.ctl.schedule();
        let loaded = s.block_count() > 0;
        let rev: u32 = s.rev;
        let info = schedule_text(s, error);
        self.set(self.keys.schedule_loaded, State::Bool(loaded));
        self.set(self.keys.schedule_rev, State::Float(number::float_bits(rev as u64)));
        self.set(self.keys.schedule_info, State::Text(info));
    }

    fn say_heap(&mut self, at: Moment)
        ensures
            final(self)@ == old(self)@.says_heap(at),
    {
        self.set(self.keys.heap, State::Float(number::float_bits(at.heap_free as u64)));
        self.set(self.keys.heap_min, State::Float(number::float_bits(at.heap_min as u64)));
    }

    fn local(&self, at: Moment) -> (r: Option<LocalTime>)
        requires
            at.sane(),
        ensures
            r == at.local(),
            r matches Some(t) ==> t.minute < 1440,
    {
        self.clock.local_time(at.secs, at.fields)
    }

    fn light_up(&self) -> (r: Light)
        ensures
            r == self@.light_up(),
    {
        if self.clients > 0 {
            Light::Online
        } else {
            Light::WifiNoHa
        }
    }

    fn credentials(&self) -> (r: bool)
        ensures
            r == self@.credentials(),
    {
        !self.net.ssid.as_str().is_empty()
    }

    // ----- ticks ------------------------------------------------------------------------------

    fn report_health(&mut self, at: Moment)
        requires
            at.sane(),
        ensures
            final(self)@ == old(self)@.reports_health(at),
    {
        proof {
            reveal(Machine::reports_health);
        }
        if self.ticks % 30 == 0 {
            let up: u64 = at.now / 1000;
            self.publish(self.keys.uptime, State::Float(number::float_bits(up)));
            let local = self.local(at);
            let shown = self.clock.local_string(local);
            self.set(self.keys.local_time, State::Text(shown));
            self.say_hold(at);
            self.say_heap(at);
        }
    }

    fn confirm(&mut self)
        ensures
            final(self)@ == old(self)@.confirms(),
    {
        proof {
            reveal(Machine::confirms);
        }
        if !self.confirmed && (self.clients > 0 || self.ticks > 300) {
            self.confirmed = true;
            self.emit(Effect::Confirm);
        }
    }

    fn open_portal(&mut self, at: Moment)
        ensures
            final(self)@ == old(self)@.opens_portal(at),
    {
        proof {
            reveal(Machine::opens_portal);
        }
        if !self.ap_active && self.credentials() && long_since(
            self.sta_down_since,
            at.now,
            PORTAL_AFTER_OFFLINE,
        ) {
            self.ap_active = true;
            self.portal_since = Some(at.now);
            self.emit(Effect::Play(Tone::PortalOpen));
            self.emit(Effect::Wifi(WifiCmd::StartAp));
            self.emit(Effect::Light(Light::Portal));
        }
    }

    fn close_portal(&mut self, at: Moment)
        ensures
            final(self)@ == old(self)@.closes_portal(at),
    {
        proof {
            reveal(Machine::closes_portal);
        }
        if self.ap_active && self.credentials() && self.wifi_up && long_since(
            self.portal_since,
            at.now,
            PORTAL_IDLE,
        ) {
            let light = self.light_up();
            self.ap_active = false;
            self.portal_since = None;
            self.emit(Effect::Wifi(WifiCmd::StopAp));
            self.emit(Effect::Light(light));
        }
    }

    /// Let the controller learn the time, and re-evaluate.
    fn tick_controller(&mut self, at: Moment) -> (actions: Vec<Action>)
        requires
            at.sane(),
            old(self)@.ctl.can_book(at.now),
        ensures
            actions@ == old(self)@.tick_step(at).actions,
            final(self)@ == (Machine {
                time_known: old(self)@.time_known || clock::valid(at.secs),
                ctl: old(self)@.tick_step(at).after,
                ..old(self)@
            }),
    {
        proof {
            reveal(Machine::tick_step);
        }
        let ghost m = self@;
        let local = self.local(at);
        let epoch = self.clock.epoch(at.secs);
        self.ctl.set_epoch(epoch);
        let ghost c = self.ctl@;
        proof {
            self.ctl.lemma_shaped();
            arbiter::lemma_fits_same(m.ctl, c, at.now, None);
            laws::lemma_room_any_day(c, at.now, local);
        }
        let mut actions: Vec<Action> = Vec::new();
        if !self.time_known && self.clock.time_known(at.secs) {
            self.time_known = true;
            if let Some(l) = local {
                let mut learned = self.ctl.on_time_known(at.now, l);
                actions.append(&mut learned);
                proof {
                    laws::lemma_booked_has_room(c.with_time_known(), at.now, Some(l));
                    laws::lemma_room_any_day(self.ctl@, at.now, local);
                }
            }
        }
        let ghost d = self.ctl@;
        let ghost said = actions@;
        let mut rest = self.ctl.tick(at.now, local);
        actions.append(&mut rest);
        proof {
            assert(c == m.ctl.with_epoch(at.epoch()));
            assert(actions@ =~= said + d.refresh(at.now, local).actions);
            assert(actions@ =~= m.tick_step(at).actions);
        }
        actions
    }

    fn on_tick(&mut self, at: Moment)
        requires
            at.sane(),
            old(self)@.wf(),
            old(self)@.ctl.can_book(at.now),
        ensures
            final(self)@ == old(self)@.ticked(at),
    {
        proof {
            reveal(Machine::ticked);
        }
        let actions = self.tick_controller(at);
        self.ticks = self.ticks.saturating_add(1);
        self.report_health(at);
        self.confirm();
        self.open_portal(at);
        self.close_portal(at);
        let due = match self.restart_at {
            Some(t) => at.now >= t,
            None => false,
        };
        if due {
            self.emit(Effect::Restart);
        } else {
            self.apply(actions);
        }
    }

    // ----- network ----------------------------------------------------------------------------

    fn on_wifi_up(&mut self, at: Moment)
        ensures
            final(self)@ == old(self)@.went_up(at),
    {
        self.wifi_up = true;
        self.sta_down_since = None;
        if self.ap_active {
            self.portal_since = Some(at.now);
        }
        if !self.announced {
            self.emit(Effect::Announce);
        }
        if !self.ap_active {
            let light = self.light_up();
            self.emit(Effect::Light(light));
        }
    }

    fn on_wifi_down(&mut self, at: Moment)
        ensures
            final(self)@ == old(self)@.went_down(at),
    {
        if self.wifi_up || self.sta_down_since.is_none() {
            self.sta_down_since = Some(at.now);
        }
        self.wifi_up = false;
        if !self.ap_active {
            self.emit(Effect::Light(Light::NoWifi));
        }
    }

    fn on_long_press(&mut self, at: Moment)
        ensures
            final(self)@ == old(self)@.toggles_portal(at),
    {
        if self.ap_active {
            let light = if self.wifi_up {
                self.light_up()
            } else {
                Light::NoWifi
            };
            self.ap_active = false;
            self.portal_since = None;
            self.emit(Effect::Play(Tone::PortalClose));
            self.emit(Effect::Wifi(WifiCmd::StopAp));
            self.emit(Effect::Light(light));
        } else {
            self.ap_active = true;
            self.portal_since = Some(at.now);
            self.emit(Effect::Play(Tone::PortalOpen));
            self.emit(Effect::Wifi(WifiCmd::StartAp));
            self.emit(Effect::Light(Light::Portal));
        }
    }

    fn on_portal_scan(&mut self, at: Moment)
        ensures
            final(self)@ == old(self)@.asks_for_scan(at),
    {
        if self.last_scan.is_none() || long_since(self.last_scan, at.now, SCAN_PAUSE) {
            self.last_scan = Some(at.now);
            self.emit(Effect::Wifi(WifiCmd::Scan));
        }
    }

    fn on_provision(&mut self, new: NetSettings, at: Moment)
        requires
            at.sane(),
        ensures
            final(self)@ == old(self)@.provisioned(new@, at),
    {
        let ssid = new.ssid.clone();
        let pass = new.pass.clone();
        self.emit(Effect::SaveNet);
        self.emit(Effect::Wifi(WifiCmd::SetStation { ssid, pass }));
        self.sta_down_since = Some(at.now);
        if !text::same(new.name.as_str(), self.net.name.as_str()) || !text::same(
            new.psk_b64.as_str(),
            self.net.psk_b64.as_str(),
        ) || !text::same(new.friendly_name.as_str(), self.net.friendly_name.as_str()) {
            self.restart_at = Some(at.now + RESTART_DELAY);
        }
        self.net = new;
    }

    fn on_ota_status(&mut self, t: String)
        ensures
            final(self)@ == old(self)@.told_of_update(t@),
    {
        if text::starts_with(t.as_str(), "installed") {
            self.emit(Effect::Play(Tone::OtaDone));
        } else if text::starts_with(t.as_str(), "failed") {
            self.emit(Effect::Play(Tone::Error));
        }
        self.set(self.keys.ota_status, State::Text(t));
    }

    // ----- Home Assistant ---------------------------------------------------------------------

    fn on_subscribed(&mut self, at: Moment)
        requires
            old(self)@.wf(),
            old(self)@.ctl.can_book(at.now),
        ensures
            final(self)@ == old(self)@.subscribed(at),
    {
        proof {
            reveal(Machine::subscribed);
        }
        self.clients = self.clients.saturating_add(1);
        let mut actions: Vec<Action> = Vec::new();
        if self.clients == 1 {
            actions = self.ctl.on_ha_connected(at.now);
        }
        if !self.ap_active {
            self.emit(Effect::Light(Light::Online));
        }
        self.apply(actions);
    }

    fn on_client_gone(&mut self, at: Moment)
        requires
            at.sane(),
            old(self)@.wf(),
            old(self)@.ctl.can_book(at.now),
        ensures
            final(self)@ == old(self)@.client_gone(at),
    {
        proof {
            reveal(Machine::client_gone);
        }
        self.clients = self.clients.saturating_sub(1);
        if self.clients == 0 {
            let local = self.local(at);
            proof {
                laws::lemma_room_any_day(self.ctl@, at.now, local);
            }
            let actions = self.ctl.on_ha_disconnected(at.now, local);
            if !self.ap_active {
                self.emit(
                    Effect::Light(
                        if self.wifi_up {
                            Light::WifiNoHa
                        } else {
                            Light::NoWifi
                        },
                    ),
                );
            }
            self.apply(actions);
        }
    }

    fn switch_buzzer(&mut self, key: u32, on: bool)
        ensures
            final(self)@ == old(self)@.buzzer_switched(key, on),
    {
        proof {
            reveal(Machine::buzzer_switched);
        }
        self.ctl.set_buzzer(on);
        self.emit(Effect::Buzzer(on));
        self.emit(Effect::SaveConfig);
        self.set(key, State::Bool(on));
        if on {
            self.emit(Effect::Play(Tone::Boot));
        }
    }

    /// The controller made a step that changed the configuration: store it, show what was set,
    /// and apply the actions.
    fn configured(&mut self, actions: Vec<Action>, key: u32, shown: State, Ghost(m): Ghost<Machine>)
        requires
            m.tripped.len() == CHANNELS,
            old(self)@ == m.with_ctl(old(self)@.ctl),
        ensures
            final(self)@ == m.configures(
                (arbiter::Step { after: old(self)@.ctl, actions: actions@ }),
                key,
                shown@,
            ),
    {
        proof {
            reveal(Machine::configures);
        }
        self.emit(Effect::SaveConfig);
        self.set(key, shown);
        self.apply(actions);
    }

    fn switch_relay(&mut self, ch: usize, key: u32, on: bool, at: Moment)
        requires
            ch < CHANNELS,
            old(self)@.wf(),
            old(self)@.ctl.can_book(at.now),
        ensures
            final(self)@ == old(self)@.relay_switched(ch as nat, key, on, at),
    {
        proof {
            reveal(Machine::relay_switched);
        }
        let actions = self.ctl.on_ha_command(ch, on, at.now);
        // Echo the real state so HA never shows a phantom toggle.
        let state = self.ctl.relays()[ch];
        self.publish(key, State::Bool(state));
        self.apply(actions);
    }

    fn on_switch(&mut self, key: u32, on: bool, at: Moment)
        requires
            old(self)@.wf(),
            old(self)@.ctl.can_book(at.now),
        ensures
            final(self)@ == old(self)@.switched(key, on, at),
    {
        proof {
            reveal(Machine::switched);
        }
        let ghost m = self@;
        if key == self.keys.buzzer {
            self.switch_buzzer(key, on);
        } else if key == self.keys.exclusive {
            let actions = self.ctl.set_exclusive(on, at.now);
            self.configured(actions, key, State::Bool(on), Ghost(m));
        } else if let Some(ch) = self.keys.relay_channel(key) {
            self.switch_relay(ch, key, on, at);
        } else if let Some(ch) = self.keys.safe_state_channel(key) {
            let actions = self.ctl.set_safe_state(ch, on, at.now);
            self.configured(actions, key, State::Bool(on), Ghost(m));
        }
    }

    fn set_hold(&mut self, key: u32, hours: u32, at: Moment)
        requires
            at.sane(),
            hours <= 72,
            old(self)@.wf(),
            old(self)@.ctl.can_book(at.now),
        ensures
            final(self)@ == old(self)@.hold_set(key, hours, at),
    {
        let ghost m = self@;
        let local = self.local(at);
        let epoch = self.clock.epoch(at.secs);
        self.ctl.set_epoch(epoch);
        proof {
            arbiter::lemma_fits_same(m.ctl, self.ctl@, at.now, None);
            laws::lemma_room_any_day(self.ctl@, at.now, local);
        }
        let actions = self.ctl.set_rain_hold(hours, at.now, local);
        let shown: u32 = if self.ctl.rain_hold_until().is_some() {
            hours
        } else {
            0
        };
        self.configured(actions, key, State::Float(number::float_bits(shown as u64)), Ghost(m));
        self.say_hold(at);
    }

    fn set_budget(&mut self, ch: usize, key: u32, minutes: u16, at: Moment)
        requires
            ch < CHANNELS,
            old(self)@.wf(),
            old(self)@.ctl.can_book(at.now),
        ensures
            final(self)@ == old(self)@.budget_set(ch as nat, key, minutes, at),
    {
        let ghost m = self@;
        let actions = self.ctl.set_max_daily_min(ch, minutes, at.now);
        let shown = State::Float(number::float_bits(minutes as u64));
        self.configured(actions, key, shown, Ghost(m));
        self.say_block(ch);
    }

    fn on_number(&mut self, key: u32, bits: u32, at: Moment)
        requires
            at.sane(),
            old(self)@.wf(),
            old(self)@.ctl.can_book(at.now),
        ensures
            final(self)@ == old(self)@.number_set(key, bits, at),
    {
        proof {
            reveal(Machine::number_set);
        }
        let ghost m = self@;
        if let Some(ch) = self.keys.max_on_channel(key) {
            let minutes = number::whole_number(bits, 1440);
            let actions = self.ctl.set_max_on_min(ch, minutes, at.now);
            let shown = State::Float(number::float_bits(minutes as u64));
            self.configured(actions, key, shown, Ghost(m));
        } else if let Some(ch) = self.keys.max_daily_channel(key) {
            let minutes = number::whole_number(bits, 1440);
            self.set_budget(ch, key, minutes, at);
        } else if key == self.keys.rain_hold_hours {
            let hours: u32 = number::whole_number(bits, 72) as u32;
            self.set_hold(key, hours, at);
        }
    }

    fn on_select(&mut self, key: u32, option: String, at: Moment)
        requires
            at.sane(),
            old(self)@.wf(),
            old(self)@.ctl.can_book(at.now),
        ensures
            final(self)@ == old(self)@.selected(key, option@, at),
    {
        proof {
            reveal(Machine::selected);
        }
        let ghost m = self@;
        if key == self.keys.mode {
            if let Some(mode) = entities::mode_from_option(option.as_str()) {
                let local = self.local(at);
                proof {
                    laws::lemma_room_any_day(self.ctl@, at.now, local);
                }
                let actions = self.ctl.set_mode(mode, at.now, local);
                let shown = State::Text(entities::mode_label(mode).to_owned());
                self.configured(actions, key, shown, Ghost(m));
            }
        }
    }

    fn on_button(&mut self, key: u32, at: Moment)
        requires
            old(self)@.wf(),
        ensures
            final(self)@ == old(self)@.pressed(key),
    {
        if key == self.keys.all_off {
            let actions = self.ctl.all_off(at.now);
            self.apply(actions);
        } else if key == self.keys.restart {
            self.emit(Effect::Restart);
        } else if key == self.keys.clear_crash {
            self.emit(Effect::ClearCrash);
            self.set(self.keys.last_crash, State::Text(String::from_str("none")));
        }
    }

    /// Store a schedule and follow it.
    fn follow(&mut self, s: Schedule, at: Moment)
        requires
            at.sane(),
            old(self)@.wf(),
            old(self)@.ctl.can_book(at.now),
            s.blocks() <= usize::MAX,
        ensures
            final(self)@ == old(self)@.follows(s, at),
    {
        proof {
            reveal(Machine::follows);
        }
        let ghost a = self.ctl@;
        let local = self.local(at);
        proof {
            self.ctl.lemma_shaped();
            laws::lemma_room_any_day(a, at.now, local);
            laws::law_only_a_new_schedule_replaces_the_old(
                a,
                Input::SetSchedule { schedule: s, now: at.now, local },
            );
        }
        self.emit(Effect::SaveSchedule);
        let actions = self.ctl.set_schedule(s, at.now, local);
        self.say_stored_schedule(None);
        self.apply(actions);
    }

    fn on_service(&mut self, key: u32, args: Vec<ExecuteServiceArgument>, at: Moment) -> (r: Ghost<
        Schedule,
    >)
        requires
            at.sane(),
            old(self)@.wf(),
            old(self)@.ctl.can_book(at.now),
        ensures
            machine::blank(r@),
            final(self)@ == old(self)@.service(
                key,
                args@.map_values(|a: ExecuteServiceArgument| a.values()),
                at,
                r@,
            ),
    {
        proof {
            reveal(Machine::service);
        }
        let empty = Schedule::default();
        let ghost blank = empty;
        if key == self.keys.set_schedule {
            let json = first_text(&args);
            self.emit(Effect::Parse(json));
        } else if key == self.keys.clear_schedule {
            proof {
                machine::lemma_blank(empty);
            }
            self.follow(empty, at);
        } else if key == self.keys.ota {
            let arg = first_text(&args);
            let url = text::trim(arg.as_str());
            if !self.updating {
                if !text::starts_with(url.as_str(), "http") {
                    let mut t = String::from_str("rejected url ");
                    let quoted = text::quote(url.as_str());
                    t.append(quoted.as_str());
                    self.emit(Effect::Report(t));
                } else {
                    self.updating = true;
                    self.emit(Effect::Fetch(url));
                }
            }
        }
        Ghost(blank)
    }

    fn take_tz(&mut self, tz: &str)
        ensures
            final(self)@ == old(self)@.adopts(tz@),
    {
        if self.clock.set_tz(tz) {
            self.emit(Effect::SetTz);
            self.emit(Effect::SaveTz);
        }
    }

    fn on_time_set(&mut self, at: Moment)
        requires
            at.sane(),
            old(self)@.wf(),
            old(self)@.ctl.can_book(at.now),
        ensures
            final(self)@ == old(self)@.learns_time(at),
    {
        proof {
            reveal(Machine::learns_time);
        }
        let local = self.local(at);
        let shown = self.clock.local_string(local);
        self.set(self.keys.local_time, State::Text(shown));
        if !self.time_known {
            self.time_known = true;
            if let Some(l) = local {
                proof {
                    laws::lemma_room_any_day(self.ctl@, at.now, Some(l));
                }
                let actions = self.ctl.on_time_known(at.now, l);
                self.apply(actions);
            }
        }
    }

    fn on_command(&mut self, cmd: Command, at: Moment) -> (r: Ghost<Schedule>)
        requires
            at.sane(),
            old(self)@.wf(),
            old(self)@.ctl.can_book(at.now),
        ensures
            machine::blank(r@),
            final(self)@ == old(self)@.ordered(cmd@, at, r@),
    {
        let empty = Schedule::default();
        let mut blank: Ghost<Schedule> = Ghost(empty);
        match cmd {
            Command::ClientSubscribed { client_info: _ } => {
                self.on_subscribed(at);
            },
            Command::ClientGone { subscribed } => {
                if subscribed {
                    self.on_client_gone(at);
                }
            },
            Command::Switch { key, on } => {
                self.on_switch(key, on, at);
            },
            Command::Number { key, value } => {
                self.on_number(key, value, at);
            },
            Command::Select { key, option } => {
                self.on_select(key, option, at);
            },
            Command::Button { key } => {
                self.on_button(key, at);
            },
            Command::Service { key, args } => {
                blank = self.on_service(key, args, at);
            },
            Command::Time { epoch_seconds, timezone } => {
                self.emit(Effect::SetEpoch(epoch_seconds));
                self.take_tz(timezone.as_str());
                self.emit(Effect::TimeSet);
            },
        }
        blank
    }

    fn on_msg(&mut self, msg: Msg, at: Moment) -> (r: Ghost<Schedule>)
        requires
            at.sane(),
            old(self)@.wf(),
            old(self)@.ctl.can_book(at.now),
            machine::countable(msg@),
        ensures
            machine::blank(r@),
            final(self)@ == old(self)@.reacts(msg@, at, r@),
    {
        let empty = Schedule::default();
        let mut blank: Ghost<Schedule> = Ghost(empty);
        match msg {
            Msg::Tick => {
                self.on_tick(at);
            },
            Msg::WifiUp(_) => {
                self.on_wifi_up(at);
            },
            Msg::WifiDown => {
                self.on_wifi_down(at);
            },
            Msg::LongPress => {
                self.on_long_press(at);
            },
            Msg::FactoryReset => {
                self.emit(Effect::Play(Tone::FactoryReset));
                self.emit(Effect::FactoryReset);
            },
            Msg::PortalScan => {
                self.on_portal_scan(at);
            },
            Msg::Provision(new) => {
                self.on_provision(new, at);
            },
            Msg::Rssi(v) => {
                self.publish(self.keys.rssi, State::Float(number::signed_float_bits(v)));
            },
            Msg::OtaStatus(t) => {
                self.on_ota_status(t);
            },
            Msg::Api(cmd) => {
                blank = self.on_command(cmd, at);
            },
            Msg::Schedule(Ok(s)) => {
                self.follow(s, at);
            },
            Msg::Schedule(Err(e)) => {
                self.say_stored_schedule(Some(e.as_str()));
            },
            Msg::TimeSet => {
                self.on_time_set(at);
            },
        }
        blank
    }

    /// What there is to do, which is then no longer to be done.
    fn take_effects(&mut self) -> (r: Vec<Effect>)
        ensures
            deeds(r@) == old(self)@.deeds,
            final(self)@ == old(self)@.quiet(),
    {
        let mut r: Vec<Effect> = Vec::new();
        std::mem::swap(&mut r, &mut self.out);
        assert(deeds(self.out@) =~= seq![]);
        r
    }

    // ----- the application's side ---------------------------------------------------------------

    /// A message can be handled now: the clock is within its range, and the on-time counters have room.
    pub fn ready(&self, at: Moment) -> (r: bool)
        ensures
            r == (at.sane() && self@.ctl.can_book(at.now)),
    {
        at.is_sane() && self.ctl.can_book(at.now)
    }

    /// React to a message: what is to be done, in order. A schedule that was cleared is blank.
    pub fn handle(&mut self, msg: Msg, at: Moment) -> (r: Vec<Effect>)
        requires
            at.sane(),
            old(self)@.wf(),
            old(self)@.ctl.can_book(at.now),
            machine::countable(msg@),
        ensures
            final(self)@.wf(),
            exists|empty: Schedule|
                machine::blank(empty) && {
                    let m = #[trigger] old(self)@.reacts(msg@, at, empty);
                    deeds(r@) == m.deeds && final(self)@ == m.quiet()
                },
    {
        let ghost m = self@;
        let blank = self.on_msg(msg, at);
        proof {
            machine::lemma_reacts_keeps(m, msg@, at, blank@);
            self.ctl.lemma_shaped();
        }
        let ghost n = m.reacts(msg@, at, blank@);
        self.take_effects()
    }

    /// Take over the timezone of a schedule that was read.
    pub fn adopt_tz(&mut self, tz: &str) -> (r: Vec<Effect>)
        ensures
            deeds(r@) == old(self)@.adopts(tz@).deeds,
            final(self)@ == old(self)@.adopts(tz@).quiet(),
    {
        self.take_tz(tz);
        self.take_effects()
    }

    /// The device is advertised on the network.
    pub fn announced(&mut self)
        ensures
            final(self)@ == (Machine { announced: true, ..old(self)@ }),
    {
        self.announced = true;
    }

    pub fn server(&self) -> (r: &Server)
        ensures
            r@ == self@.world,
    {
        &self.server
    }

    pub fn config(&self) -> (r: &Config)
        ensures
            r@ == self@.ctl.cfg,
    {
        self.ctl.config()
    }

    pub fn schedule(&self) -> (r: &Schedule)
        ensures
            *r == self@.ctl.schedule,
    {
        self.ctl.schedule()
    }

    pub fn usage(&self) -> (r: Usage)
        ensures
            r.day == (match self@.ctl.today {
                Some(d) => d,
                None => 0,
            }),
            r.on_today_ms@ == self@.ctl.on_today_ms,
            r.total_ms@ == self@.ctl.total_ms,
    {
        self.ctl.usage()
    }

    pub fn tz(&self) -> (r: &str)
        ensures
            r@ == self@.tz,
    {
        self.clock.tz()
    }

    pub fn net(&self) -> (r: &NetSettings)
        ensures
            r@ == self@.net,
    {
        &self.net
    }

    pub fn ap_active(&self) -> (r: bool)
        ensures
            r == self@.ap_active,
    {
        self.ap_active
    }

    // ----- start ------------------------------------------------------------------------------

    fn say_relays(&mut self)
        ensures
            final(self)@ == old(self)@.says_relays(CHANNELS as nat),
    {
        let ghost m = self@;
        let mut ch: usize = 0;
        while ch < CHANNELS
            invariant
                ch <= CHANNELS,
                self@ == m.says_relays(ch as nat),
            decreases CHANNELS - ch,
        {
            proof {
                machine::lemma_relays_keep(m, ch as nat);
                self.ctl.lemma_shaped();
            }
            let on = self.ctl.relays()[ch];
            let c = self.ctl.config().channels[ch];
            self.set(self.keys.relay[ch], State::Bool(on));
            self.set(self.keys.max_on[ch], State::Float(number::float_bits(c.max_on_min as u64)));
            self.set(self.keys.tripped[ch], State::Bool(false));
            self.set(self.keys.safe_state[ch], State::Bool(c.safe_state));
            let today = self.ctl.on_today_min()[ch];
            let total = self.ctl.total_min()[ch];
            let budget = number::float_bits(c.max_daily_min as u64);
            self.set(self.keys.max_daily[ch], State::Float(budget));
            self.set(self.keys.on_today[ch], State::Float(number::float_bits(today as u64)));
            self.set(self.keys.total_on[ch], State::Float(number::float_bits(total as u64)));
            assert(today == arbiter::minutes(m.ctl.on_today_ms[ch as int]));
            assert(total == arbiter::minutes(m.ctl.total_ms[ch as int]));
            self.say_block(ch);
            ch += 1;
        }
    }

    fn say_all(&mut self, at: Moment)
        requires
            at.sane(),
            old(self)@.wf(),
        ensures
            final(self)@ == old(self)@.says_all(at),
    {
        let ghost m = self@;
        self.say_relays();
        proof {
            machine::lemma_relays_keep(m, CHANNELS as nat);
        }
        let mode = self.ctl.config().mode;
        let exclusive = self.ctl.config().exclusive;
        let buzzer = self.ctl.config().buzzer;
        let link = self.ctl.link();
        let local = self.local(at);
        let shown = self.clock.local_string(local);
        self.set(self.keys.mode, State::Text(entities::mode_label(mode).to_owned()));
        self.set(self.keys.exclusive, State::Bool(exclusive));
        self.set(self.keys.buzzer, State::Bool(buzzer));
        self.set(self.keys.link, State::Text(link.as_str().to_owned()));
        self.set(self.keys.local_time, State::Text(shown));
        self.set(self.keys.uptime, State::Float(0));
        self.say_hold(at);
        self.say_heap(at);
        self.say_stored_schedule(None);
    }

    /// The firmware of a device that has just started, and what is to be done first.
    pub fn new(
        ctl: Controller,
        server: Server,
        keys: Keys,
        clock: Clock,
        net: NetSettings,
        boot: Boot,
        at: Moment,
    ) -> (r: (Firmware, Vec<Effect>))
        requires
            at.sane(),
            ctl@.schedule.blocks() <= usize::MAX,
        ensures
            r.0@.wf(),
            ({
                let m = machine::started(
                    ctl@,
                    server@,
                    keys,
                    clock@,
                    net@,
                    boot@,
                    at,
                );
                r.0@ == m.quiet() && deeds(r.1@) == m.deeds
            }),
    {
        let ap_active = net.ssid.as_str().is_empty();
        let mut fw = Firmware {
            ctl,
            server,
            keys,
            clock,
            net,
            ap_active,
            announced: false,
            wifi_up: false,
            sta_down_since: Some(at.now),
            portal_since: if ap_active {
                Some(at.now)
            } else {
                None
            },
            last_scan: None,
            restart_at: None,
            clients: 0,
            time_known: false,
            ticks: 0,
            tripped: [false;CHANNELS],
            confirmed: false,
            updating: false,
            out: Vec::new(),
        };
        let ghost m0 = machine::fresh(ctl@, server@, keys, clock@, net@, at);
        proof {
            fw.ctl.lemma_shaped();
            assert(deeds(fw.out@) =~= seq![]);
            assert(fw.tripped@ =~= arbiter::all_false());
            assert(fw@ =~= m0);
        }
        fw.say_all(at);
        if ap_active {
            fw.emit(Effect::Light(Light::Portal));
        }
        fw.emit(Effect::Play(Tone::Boot));
        let mut idle = boot.version;
        idle.append(" idle");
        fw.set(fw.keys.ota_status, State::Text(idle));
        fw.set(fw.keys.reset_reason, State::Text(boot.reset_reason));
        fw.set(fw.keys.last_crash, State::Text(boot.last_crash));
        proof {
            machine::lemma_started(ctl@, server@, keys, clock@, net@, boot@, at);
            fw.ctl.lemma_shaped();
        }
        let effects = fw.take_effects();
        (fw, effects)
    }
}

} // verus!
