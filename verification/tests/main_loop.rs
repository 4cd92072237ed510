//! The main loop, message by message.

use relay6::api::entity::fnv1_hash;
use relay6::api::proto::ExecuteServiceArgument;
use relay6::api::server::Outbound;
use relay6::api::{Command, Server, State};
use relay6::firmware::buzzer::Tone;
use relay6::firmware::clock::{Clock, Fields};
use relay6::firmware::entities::{build, mode_label, Keys};
use relay6::firmware::identity::identify;
use relay6::firmware::machine::{Light, Moment};
use relay6::firmware::main_loop::{Boot, Effect, Firmware, Msg};
use relay6::firmware::settings::NetSettings;
use relay6::firmware::wifi::WifiCmd;
use relay6::{Block, Config, Controller, DayMask, Mode, Schedule};

const EPOCH: u64 = 1_800_000_000;

/// Tuesday 12:00 unless said otherwise; without a clock when `secs` is 0.
fn at(now: u64, secs: u64) -> Moment {
    Moment { now, secs, fields: Some(Fields { year: 2027, yday: 14, wday: 2, hour: 12, min: 0 }), heap_free: 100_000, heap_min: 50_000 }
}

fn net(ssid: &str) -> NetSettings {
    NetSettings {
        ssid: ssid.into(),
        pass: "pw".into(),
        psk_b64: "key".into(),
        name: "relay6".into(),
        friendly_name: "Relay board".into(),
    }
}

fn boot(ssid: &str, cfg: Config) -> (Firmware, Keys, Vec<Effect>) {
    let (registry, keys) = build();
    let device = identify(&net(ssid), &[1, 2, 3, 4, 5, 6], "9.9.9");
    let server = Server::new(device, registry, "relay-fw 9.9.9");
    let ctl = Controller::new(cfg, Schedule::default());
    let past = Boot { version: "9.9.9".into(), reset_reason: "BROWNOUT".into(), last_crash: "PANIC".into() };
    let (fw, effects) = Firmware::new(ctl, server, keys, Clock::new(None), net(ssid), past, at(0, 0));
    (fw, keys, effects)
}

fn switch(key: u32, on: bool) -> Msg {
    Msg::from(Command::Switch { key, on })
}

fn subscribe() -> Msg {
    Msg::Api(Command::ClientSubscribed { client_info: "ha".into() })
}

fn relays(effects: &[Effect]) -> Vec<(usize, bool)> {
    effects
        .iter()
        .filter_map(|e| match e {
            Effect::Relay { ch, on } => Some((*ch, *on)),
            _ => None,
        })
        .collect()
}

fn lights(effects: &[Effect]) -> Vec<Light> {
    effects
        .iter()
        .filter_map(|e| match e {
            Effect::Light(l) => Some(*l),
            _ => None,
        })
        .collect()
}

fn sent(effects: &[Effect], key: u32) -> Vec<State> {
    effects
        .iter()
        .filter_map(|e| match e {
            Effect::Send(Outbound::State(k, s)) if *k == key => Some(s.copy()),
            _ => None,
        })
        .collect()
}

fn plays(effects: &[Effect], tone: Tone) -> bool {
    effects.iter().any(|e| matches!(e, Effect::Play(t) if *t == tone))
}

fn text(s: &str) -> State {
    State::Text(s.into())
}

fn float(v: f32) -> State {
    State::Float(v.to_bits())
}

#[test]
fn booting_publishes_everything() {
    let (fw, k, effects) = boot("home", Config::default());
    assert!(plays(&effects, Tone::Boot));
    assert!(lights(&effects).is_empty());
    assert!(!fw.ap_active());
    assert_eq!(fw.server().state(k.mode), Some(text(mode_label(Mode::Auto))));
    assert_eq!(fw.server().state(k.link), Some(text("offline_unknown_time")));
    assert_eq!(fw.server().state(k.local_time), Some(text("unknown")));
    assert_eq!(fw.server().state(k.ota_status), Some(text("9.9.9 idle")));
    assert_eq!(fw.server().state(k.heap), Some(float(100_000.0)));
    assert_eq!(fw.server().state(k.schedule_info), Some(text("none")));
    assert_eq!(fw.server().state(k.relay[5]), Some(State::Bool(false)));
    let (fw, _, effects) = boot("", Config::default());
    assert!(fw.ap_active());
    assert_eq!(lights(&effects), vec![Light::Portal]);
    assert_eq!(Light::Portal.rgb(), (0, 0, 28));
}

#[test]
fn home_assistant_switches_relays_while_connected() {
    let (mut fw, k, _) = boot("home", Config::default());
    fw.handle(Msg::WifiUp("10.0.0.1".into()), at(1_000, 0));
    let e = fw.handle(switch(k.relay[2], true), at(1_500, 0));
    assert!(relays(&e).is_empty(), "not connected");
    assert_eq!(sent(&e, k.relay[2]), vec![State::Bool(false)], "the real state is echoed");
    let e = fw.handle(subscribe(), at(2_000, 0));
    assert_eq!(lights(&e), vec![Light::Online]);
    assert_eq!(sent(&e, k.link), vec![text("online")]);
    let e = fw.handle(switch(k.relay[2], true), at(3_000, 0));
    assert_eq!(relays(&e), vec![(2, true)]);
    assert_eq!(sent(&e, k.relay[2]), vec![State::Bool(true)]);
    let e = fw.handle(Msg::Api(Command::Button { key: k.all_off }), at(4_000, 0));
    assert_eq!(relays(&e), vec![(2, false)]);
}

#[test]
fn the_last_client_gone_takes_the_relays_offline() {
    let (mut fw, k, _) = boot("home", Config::default());
    fw.handle(Msg::WifiUp("10.0.0.1".into()), at(0, EPOCH));
    fw.handle(Msg::Tick, at(500, EPOCH));
    fw.handle(subscribe(), at(1_000, EPOCH));
    fw.handle(subscribe(), at(1_000, EPOCH));
    fw.handle(switch(k.relay[0], true), at(2_000, EPOCH));
    let gone = || Msg::Api(Command::ClientGone { subscribed: true });
    assert!(fw.handle(gone(), at(3_000, EPOCH)).is_empty(), "one is left");
    assert!(fw.handle(Msg::Api(Command::ClientGone { subscribed: false }), at(3_000, EPOCH)).is_empty());
    let e = fw.handle(gone(), at(4_000, EPOCH));
    assert_eq!(lights(&e), vec![Light::WifiNoHa]);
    assert_eq!(relays(&e), vec![(0, false)], "the empty schedule wants it off");
    assert_eq!(sent(&e, k.link), vec![text("offline_schedule")]);
}

#[test]
fn the_safeguard_raises_an_alarm_that_the_next_on_clears() {
    let mut cfg = Config::default();
    cfg.channels[1].max_on_min = 1;
    let (mut fw, k, _) = boot("home", cfg);
    fw.handle(subscribe(), at(0, 0));
    fw.handle(switch(k.relay[1], true), at(0, 0));
    let e = fw.handle(Msg::Tick, at(60_000, 0));
    assert_eq!(relays(&e), vec![(1, false)]);
    assert!(plays(&e, Tone::Safeguard));
    assert_eq!(sent(&e, k.tripped[1]), vec![State::Bool(true)]);
    let e = fw.handle(switch(k.relay[1], true), at(61_000, 0));
    assert_eq!(sent(&e, k.tripped[1]), vec![State::Bool(false)]);
}

#[test]
fn settings_are_stored_and_shown() {
    let (mut fw, k, _) = boot("home", Config::default());
    let saves = |e: &[Effect]| e.iter().filter(|x| matches!(x, Effect::SaveConfig)).count();
    let e = fw.handle(Msg::Api(Command::Number { key: k.max_on[3], value: 12.4f32.to_bits() }), at(0, 0));
    assert_eq!((saves(&e), sent(&e, k.max_on[3])), (1, vec![float(12.0)]));
    assert_eq!(fw.config().channels[3].max_on_min, 12);
    let e = fw.handle(Msg::Api(Command::Select { key: k.mode, option: "manual".into() }), at(0, 0));
    assert_eq!((saves(&e), fw.config().mode), (1, Mode::Manual));
    assert_eq!(sent(&e, k.mode), vec![text(mode_label(Mode::Manual))]);
    assert!(fw.handle(Msg::Api(Command::Select { key: k.mode, option: "on".into() }), at(0, 0)).is_empty());
    let e = fw.handle(switch(k.exclusive, true), at(0, 0));
    assert_eq!((saves(&e), fw.config().exclusive), (1, true));
    let e = fw.handle(switch(k.safe_state[0], true), at(0, 0));
    assert_eq!((saves(&e), fw.config().channels[0].safe_state), (1, true));
    let e = fw.handle(switch(k.buzzer, false), at(0, 0));
    assert!(matches!(e[0], Effect::Buzzer(false)) && saves(&e) == 1 && !plays(&e, Tone::Boot));
    assert!(plays(&fw.handle(switch(k.buzzer, true), at(0, 0)), Tone::Boot));
    assert!(fw.handle(switch(fnv1_hash("nobody"), true), at(0, 0)).is_empty());
}

#[test]
fn rain_holds_need_the_time() {
    let (mut fw, k, _) = boot("home", Config::default());
    let hold = |key| Msg::Api(Command::Number { key, value: 3f32.to_bits() });
    fw.handle(hold(k.rain_hold_hours), at(0, 0));
    assert_eq!(fw.config().rain_hold_until, 0);
    let e = fw.handle(hold(k.rain_hold_hours), at(0, EPOCH));
    assert_eq!(fw.config().rain_hold_until, EPOCH + 3 * 3600);
    assert_eq!(sent(&e, k.rain_hold_hours), vec![float(3.0)]);
    assert_eq!(sent(&e, k.rain_hold), vec![text("Tue 15:00")]);
    fw.handle(Msg::Tick, at(1_000, EPOCH));
    let e = fw.handle(Msg::Tick, at(2_000, EPOCH + 3 * 3600));
    assert!(e.iter().any(|x| matches!(x, Effect::SaveConfig)));
    assert_eq!(sent(&e, k.rain_hold_hours), vec![float(0.0)]);
    assert_eq!(sent(&e, k.rain_hold), vec![text("none")]);
}

#[test]
fn the_start_tells_why_and_what_crashed() {
    let (mut fw, k, _) = boot("home", Config::default());
    assert_eq!(fw.server().state(k.reset_reason), Some(text("BROWNOUT")));
    assert_eq!(fw.server().state(k.last_crash), Some(text("PANIC")));
    assert_eq!(fw.server().state(k.rain_hold), Some(text("none")));
    let e = fw.handle(Msg::Api(Command::Button { key: k.clear_crash }), at(0, 0));
    assert!(matches!(e[0], Effect::ClearCrash));
    assert_eq!(sent(&e, k.last_crash), vec![text("none")]);
}

#[test]
fn budgets_are_set_and_shown() {
    let (mut fw, k, _) = boot("home", Config::default());
    assert_eq!(fw.server().state(k.max_daily[2]), Some(float(0.0)));
    assert_eq!(fw.server().state(k.daily_limit[2]), Some(State::Bool(false)));
    let minute = 60_000;
    fw.handle(subscribe(), at(0, 0));
    fw.handle(switch(k.relay[2], true), at(0, 0));
    let e = fw.handle(Msg::Tick, at(25 * minute, 0));
    assert_eq!(sent(&e, k.on_today[2]), vec![float(25.0)]);
    assert_eq!(sent(&e, k.total_on[2]), vec![float(25.0)]);
    assert!(e.iter().any(|x| matches!(x, Effect::SaveUsage)));
    fw.handle(switch(k.relay[2], false), at(25 * minute, 0));
    // The budget is used up already: nobody can switch the relay on.
    let e = fw.handle(Msg::Api(Command::Number { key: k.max_daily[2], value: 20f32.to_bits() }), at(25 * minute, 0));
    assert_eq!(fw.config().channels[2].max_daily_min, 20);
    assert_eq!(sent(&e, k.max_daily[2]), vec![float(20.0)]);
    assert_eq!(sent(&e, k.daily_limit[2]), vec![State::Bool(true)]);
    assert!(relays(&fw.handle(switch(k.relay[2], true), at(26 * minute, 0))).is_empty());
    // Without a budget it can be switched on again.
    let e = fw.handle(Msg::Api(Command::Number { key: k.max_daily[2], value: 0 }), at(27 * minute, 0));
    assert_eq!(sent(&e, k.daily_limit[2]), vec![State::Bool(false)]);
    assert_eq!(relays(&fw.handle(switch(k.relay[2], true), at(28 * minute, 0))), vec![(2, true)]);
    // A budget that a running relay has used up switches it off.
    let e = fw.handle(Msg::Api(Command::Number { key: k.max_daily[2], value: 20f32.to_bits() }), at(29 * minute, 0));
    assert_eq!(relays(&e), vec![(2, false)]);
    assert_eq!(fw.server().state(k.daily_limit[2]), Some(State::Bool(true)));
}

#[test]
fn schedules_are_read_stored_and_followed() {
    let (mut fw, k, _) = boot("home", Config::default());
    fw.handle(Msg::Tick, at(0, EPOCH));
    let args = vec![ExecuteServiceArgument { bool: false, legacy_int: 0, float: 0, string: "{..}".into() }];
    let e = fw.handle(Msg::Api(Command::Service { key: k.set_schedule, args }), at(0, EPOCH));
    assert!(matches!(&e[..], [Effect::Parse(json)] if json == "{..}"));
    let e = fw.adopt_tz("WET0");
    assert!(matches!(e[..], [Effect::SetTz, Effect::SaveTz]));
    assert!(fw.adopt_tz("WET0").is_empty());
    assert_eq!(fw.tz(), "WET0");
    let mut s = Schedule::default();
    s.rev = 7;
    s.tz = "WET0".into();
    s.channels[4].push(Block { days: DayMask::all(), from: 700, to: 800 });
    let e = fw.handle(Msg::Schedule(Ok(s)), at(1_000, EPOCH));
    assert!(matches!(e[0], Effect::SaveSchedule));
    assert_eq!(sent(&e, k.schedule_info), vec![text("rev 7, 1 blocks, tz WET0")]);
    assert_eq!(sent(&e, k.schedule_rev), vec![float(7.0)]);
    assert_eq!(relays(&e), vec![(4, true)]);
    assert_eq!(fw.schedule().rev, 7);
    let e = fw.handle(Msg::Schedule(Err("bad".into())), at(2_000, EPOCH));
    assert_eq!(sent(&e, k.schedule_info), vec![text("rejected: bad")]);
    assert_eq!(fw.schedule().rev, 7);
    let e = fw.handle(Msg::Api(Command::Service { key: k.clear_schedule, args: vec![] }), at(3_000, EPOCH));
    assert!(matches!(e[0], Effect::SaveSchedule));
    assert_eq!(relays(&e), vec![(4, false)]);
    assert_eq!(sent(&e, k.schedule_loaded), vec![State::Bool(false)]);
}

#[test]
fn the_time_comes_from_home_assistant_or_the_clock() {
    let (mut fw, k, _) = boot("home", Config::default());
    let e = fw.handle(Msg::Api(Command::Time { epoch_seconds: 77, timezone: "UTC0".into() }), at(0, 0));
    assert!(matches!(e[..], [Effect::SetEpoch(77), Effect::SetTz, Effect::SaveTz, Effect::TimeSet]));
    let e = fw.handle(Msg::TimeSet, at(0, EPOCH));
    assert_eq!(sent(&e, k.local_time), vec![text("Tue 12:00")]);
    assert_eq!(sent(&e, k.link), vec![text("offline_schedule")]);
    let (mut fw, k, _) = boot("home", Config::default());
    let e = fw.handle(Msg::Tick, at(0, EPOCH));
    assert_eq!(sent(&e, k.link), vec![text("offline_schedule")]);
}

#[test]
fn health_is_reported_every_thirty_ticks() {
    let (mut fw, k, _) = boot("home", Config::default());
    let mut reports = Vec::new();
    for n in 1..=60u64 {
        reports.extend(sent(&fw.handle(Msg::Tick, at(n * 1_000, 0)), k.uptime));
    }
    assert_eq!(reports, vec![float(30.0), float(60.0)]);
    let e = fw.handle(Msg::Rssi(-70), at(61_000, 0));
    assert_eq!(sent(&e, k.rssi), vec![float(-70.0)]);
}

#[test]
fn images_are_confirmed_by_a_client_or_five_minutes() {
    let confirms = |e: &[Effect]| e.iter().any(|x| matches!(x, Effect::Confirm));
    let (mut fw, _, _) = boot("home", Config::default());
    let first = (1..=400u64).find(|n| confirms(&fw.handle(Msg::Tick, at(n * 1_000, 0))));
    assert_eq!(first, Some(301));
    let (mut fw, _, _) = boot("home", Config::default());
    fw.handle(subscribe(), at(0, 0));
    assert!(confirms(&fw.handle(Msg::Tick, at(1_000, 0))));
    assert!(!confirms(&fw.handle(Msg::Tick, at(2_000, 0))), "once");
}

#[test]
fn a_long_outage_opens_the_portal_and_the_station_closes_it() {
    let (mut fw, _, _) = boot("home", Config::default());
    assert!(lights(&fw.handle(Msg::Tick, at(600_000, 0))).is_empty());
    let e = fw.handle(Msg::Tick, at(600_001, 0));
    assert!(plays(&e, Tone::PortalOpen) && fw.ap_active());
    assert!(e.iter().any(|x| matches!(x, Effect::Wifi(WifiCmd::StartAp))));
    assert_eq!(lights(&e), vec![Light::Portal]);
    // The station comes back an hour later: 15 more minutes.
    let e = fw.handle(Msg::WifiUp("10.0.0.1".into()), at(4_000_000, 0));
    assert!(matches!(e[..], [Effect::Announce]));
    fw.announced();
    assert!(fw.handle(Msg::Tick, at(4_900_000, 0)).iter().all(|x| !matches!(x, Effect::Wifi(_))));
    let e = fw.handle(Msg::Tick, at(4_900_001, 0));
    assert!(e.iter().any(|x| matches!(x, Effect::Wifi(WifiCmd::StopAp))));
    assert_eq!(lights(&e), vec![Light::WifiNoHa]);
    assert!(!fw.ap_active());
    let e = fw.handle(Msg::WifiUp("10.0.0.1".into()), at(5_000_000, 0));
    assert!(!e.iter().any(|x| matches!(x, Effect::Announce)), "announced already");
}

#[test]
fn the_button_toggles_the_portal_and_resets() {
    let (mut fw, _, _) = boot("home", Config::default());
    let e = fw.handle(Msg::LongPress, at(0, 0));
    assert!(plays(&e, Tone::PortalOpen) && fw.ap_active());
    let e = fw.handle(Msg::LongPress, at(1, 0));
    assert!(plays(&e, Tone::PortalClose) && !fw.ap_active());
    assert_eq!(lights(&e), vec![Light::NoWifi]);
    let e = fw.handle(Msg::FactoryReset, at(2, 0));
    assert!(plays(&e, Tone::FactoryReset) && matches!(e[1], Effect::FactoryReset));
}

#[test]
fn losing_wifi_shows() {
    let (mut fw, _, _) = boot("home", Config::default());
    fw.handle(Msg::WifiUp("10.0.0.1".into()), at(0, 0));
    assert_eq!(lights(&fw.handle(Msg::WifiDown, at(1_000, 0))), vec![Light::NoWifi]);
    // Failed attempts after that do not restart the outage.
    fw.handle(Msg::WifiDown, at(500_000, 0));
    fw.handle(Msg::Tick, at(601_001, 0));
    assert!(fw.ap_active());
}

#[test]
fn provisioning_reconnects_and_restarts_if_the_device_changes() {
    let (mut fw, _, _) = boot("home", Config::default());
    let mut new = net("other");
    let e = fw.handle(Msg::Provision(new.copy()), at(1_000, 0));
    assert!(matches!(&e[..], [Effect::SaveNet, Effect::Wifi(WifiCmd::SetStation { ssid, pass })] if ssid == "other" && pass == "pw"));
    assert_eq!(fw.net().ssid, "other");
    let restarts = |e: &[Effect]| e.iter().any(|x| matches!(x, Effect::Restart));
    assert!(!restarts(&fw.handle(Msg::Tick, at(60_000, 0))));
    new.name = "pump".into();
    fw.handle(Msg::Provision(new), at(100_000, 0));
    assert!(!restarts(&fw.handle(Msg::Tick, at(124_999, 0))));
    assert!(restarts(&fw.handle(Msg::Tick, at(125_000, 0))));
}

#[test]
fn scans_for_the_page_are_spaced() {
    let (mut fw, _, _) = boot("home", Config::default());
    assert_eq!(fw.handle(Msg::PortalScan, at(5, 0)).len(), 1);
    assert!(fw.handle(Msg::PortalScan, at(10_005, 0)).is_empty());
    assert_eq!(fw.handle(Msg::PortalScan, at(10_006, 0)).len(), 1);
}

#[test]
fn updates_run_one_at_a_time() {
    let (mut fw, k, _) = boot("home", Config::default());
    let ota = |url: &str| {
        let args = vec![ExecuteServiceArgument { bool: false, legacy_int: 0, float: 0, string: url.into() }];
        Msg::Api(Command::Service { key: k.ota, args })
    };
    let e = fw.handle(ota("ftp://x"), at(0, 0));
    assert!(matches!(&e[..], [Effect::Report(t)] if t == "rejected url \"ftp://x\""));
    let e = fw.handle(ota(" http://x/fw.bin "), at(0, 0));
    assert!(matches!(&e[..], [Effect::Fetch(u)] if u == "http://x/fw.bin"));
    assert!(fw.handle(ota("http://y"), at(0, 0)).is_empty());
    let e = fw.handle(Msg::OtaStatus("installed 5 bytes, rebooting".into()), at(0, 0));
    assert!(plays(&e, Tone::OtaDone));
    let e = fw.handle(Msg::OtaStatus("failed: x".into()), at(0, 0));
    assert!(plays(&e, Tone::Error));
    assert_eq!(sent(&e, k.ota_status), vec![text("failed: x")]);
    let e = fw.handle(Msg::Api(Command::Button { key: k.restart }), at(0, 0));
    assert!(matches!(e[..], [Effect::Restart]));
}

#[test]
fn usage_is_stored_as_it_grows() {
    let (mut fw, k, _) = boot("home", Config::default());
    fw.handle(subscribe(), at(0, EPOCH));
    fw.handle(switch(k.relay[0], true), at(0, EPOCH));
    let e = fw.handle(Msg::Tick, at(61_000, EPOCH));
    assert!(e.iter().any(|x| matches!(x, Effect::SaveUsage)));
    assert_eq!(fw.usage().total_ms[0], 61_000);
    assert!(fw.ready(at(62_000, EPOCH)));
    assert!(!fw.ready(Moment { fields: Some(Fields { year: 2027, yday: 14, wday: 0, hour: 24, min: 0 }), ..at(62_000, EPOCH) }));
    assert!(!fw.ready(at(u64::MAX, EPOCH)));
}

#[test]
fn with_the_interlock_the_pins_break_before_they_make() {
    let mut cfg = Config::default();
    cfg.exclusive = true;
    let (mut fw, k, _) = boot("home", cfg);
    fw.handle(subscribe(), at(0, 0));
    assert_eq!(relays(&fw.handle(switch(k.relay[0], true), at(1, 0))), vec![(0, true)]);
    assert_eq!(relays(&fw.handle(switch(k.relay[5], true), at(2, 0))), vec![(0, false), (5, true)]);
}

#[test]
fn the_portal_stays_open_without_credentials() {
    let (mut fw, _, _) = boot("", Config::default());
    for n in 1..200u64 {
        fw.handle(Msg::Tick, at(n * 60_000, 0));
        assert!(fw.ap_active());
    }
}

#[test]
fn home_assistant_sees_the_relays_as_they_are() {
    let mut cfg = Config::default();
    cfg.channels[1].max_on_min = 2;
    let (mut fw, k, _) = boot("home", cfg);
    let mut pins = [false; 6];
    let mut x: u64 = 11;
    for n in 1..3_000u64 {
        x = x.wrapping_mul(6364136223846793005).wrapping_add(1442695040888963407);
        let (ch, on) = ((x >> 33) as usize % 6, (x >> 40) & 1 == 1);
        let when = at(n * 7_000, if n > 500 { EPOCH + n * 7 } else { 0 });
        let msg = match (x >> 50) % 10 {
            0 => subscribe(),
            1 => Msg::Api(Command::ClientGone { subscribed: true }),
            2 | 3 | 4 => switch(k.relay[ch], on),
            5 => switch(k.exclusive, on),
            6 => switch(k.safe_state[ch], on),
            7 => Msg::Api(Command::Button { key: k.all_off }),
            _ => Msg::Tick,
        };
        for (ch, on) in relays(&fw.handle(msg, when)) {
            pins[ch] = on;
        }
        for ch in 0..6 {
            assert_eq!(fw.server().state(k.relay[ch]), Some(State::Bool(pins[ch])), "step {n}");
        }
    }
}
