//! The firmware's parts: tones, clock, updates, settings, portal, WiFi, button.

use relay6::firmware::buzzer::{sequence, Buzzer, Tone};
use relay6::firmware::clock::{Clock, Fields, MIN_VALID_EPOCH};
use relay6::firmware::crash::{collect, last_report, panic_text, reset_reason, Dump, Summary};
use relay6::firmware::entities::{build, mode_from_option, mode_label};
use relay6::firmware::identity::{api_key, identify, node_name};
use relay6::firmware::logger::{forward, segment, Level};
use relay6::firmware::number::{float_bits, signed_float_bits, whole_number};
use relay6::firmware::ota::{
    content_length, downloading_text, failed_text, installed_text, known_size, status_ok, Download, Progress,
};
use relay6::firmware::portal::{
    body_fits, bounces, decide_save, dns_reply, key_status, peer_ipv4, refusal_body, sanitize_name,
    save, via_ap, SaveRequest,
};
use relay6::firmware::seed::{seed_hash, seed_variables};
use relay6::firmware::settings::{
    ensure_key, first_tz, reset_net_keys, reset_relay_keys, seed_changed, start_with, stored_tz, NetSettings,
};
use relay6::firmware::ticker::{admits, Ticker};
use relay6::firmware::updater::{is_newer, parse_version, take_body};
use relay6::firmware::wifi::{
    configure, scan_list, station_auth, Auth, Demand, Found, RadioMode, Wifi, WifiCmd,
};
use relay6::{Mode, Weekday};

// ----- tones and clock -------------------------------------------------------------------------------

#[test]
fn tones_sound_unless_muted() {
    assert_eq!(sequence(Tone::Boot), vec![(1500, 60, 40), (2200, 80, 0)]);
    assert_eq!(sequence(Tone::FactoryReset), vec![(900, 600, 0)]);
    assert_eq!(sequence(Tone::PortalClose), vec![(2000, 80, 60), (1600, 80, 60), (1200, 120, 0)]);
    let mut b = Buzzer::new(true);
    assert_eq!(b.play(Tone::Safeguard).len(), 3);
    b.set_enabled(false);
    assert!(b.play(Tone::Safeguard).is_empty());
}

#[test]
fn the_clock_is_set_or_unknown() {
    let mut c = Clock::new(None);
    assert_eq!(c.tz(), "");
    assert!(!c.set_tz(""));
    assert!(c.set_tz("UTC0"));
    assert!(!c.set_tz("UTC0"), "unchanged");
    assert_eq!(c.tz(), "UTC0");
    assert_eq!(Clock::new(Some("WET0".into())).tz(), "WET0");
    assert_eq!(c.epoch(MIN_VALID_EPOCH - 1), None);
    assert_eq!(c.epoch(MIN_VALID_EPOCH), Some(MIN_VALID_EPOCH));
    assert!(!c.time_known(0));
    let f = Fields { year: 2024, yday: 0, wday: 1, hour: 7, min: 5 };
    let t = c.local_time(MIN_VALID_EPOCH, Some(f)).unwrap();
    assert_eq!((t.weekday, t.minute, t.day), (Weekday::Mon, 425, 2024 * 366));
    // A week later it is another day.
    let later = c.local_time(MIN_VALID_EPOCH + 604_800, Some(Fields { yday: 7, ..f })).unwrap();
    assert_eq!((later.weekday, later.day), (Weekday::Mon, 2024 * 366 + 7));
    assert_eq!(c.local_string(Some(t)), "Mon 07:05");
    assert_eq!(c.local_time(0, Some(f)), None);
    assert_eq!(c.local_time(MIN_VALID_EPOCH, None), None);
    assert_eq!(c.local_string(None), "unknown");
}

#[test]
fn the_end_of_a_hold_is_shown() {
    let c = Clock::new(None);
    let secs = MIN_VALID_EPOCH + 30;
    let sunday = c.local_time(secs, Some(Fields { year: 2024, yday: 6, wday: 0, hour: 23, min: 30 }));
    assert_eq!(c.hold_string(None, secs, sunday), "none");
    assert_eq!(c.hold_string(Some(secs + 3600), secs, sunday), "Mon 00:30");
    assert_eq!(c.hold_string(Some(secs + 72 * 3600), secs, sunday), "Wed 23:30");
    assert_eq!(c.hold_string(Some(secs - 1), secs, sunday), "Sun 23:30");
    assert_eq!(c.hold_string(Some(secs + 3600), secs, None), "unknown");
}

#[test]
fn resets_have_a_reason() {
    assert_eq!(reset_reason(9), "BROWNOUT");
    assert_eq!(reset_reason(6), "TASK WATCHDOG");
    assert_eq!(reset_reason(4), "PANIC");
    assert_eq!(reset_reason(0), "UNKNOWN");
    assert_eq!(reset_reason(99), "UNKNOWN");
}

#[test]
fn only_an_ok_response_is_read() {
    assert_eq!(status_ok(200), Ok(()));
    assert_eq!(status_ok(404), Err("http status 404".to_string()));
}

// ----- logs and crashes ------------------------------------------------------------------------------

#[test]
fn log_lines_name_level_and_module() {
    let (level, line) = forward("relay_fw::wifi", Level::Warn, "lost").unwrap();
    assert_eq!((level, line.as_str()), (2, "[W][wifi]: lost"));
    assert_eq!(forward("main", Level::Debug, "x").unwrap(), (5, "[D][main]: x".to_string()));
    assert!(forward("esphome_api::session", Level::Error, "x").is_none(), "would feed itself");
    assert!(forward("main", Level::Trace, "x").is_none());
    assert_eq!(segment("a::b::c"), "c");
    assert_eq!(segment("a:::b"), "b");
    assert_eq!(segment("a::"), "");
}

#[test]
fn crashes_are_reported() {
    assert!(collect("boot", Dump::Nothing, None).is_none());
    let dump = Dump::Readable(Summary { task: "main".into(), cause: 29, pc: 0x4200_1234, addr: 0 });
    let (full, stored) = collect("PANIC", dump, Some("oops".into())).unwrap();
    assert_eq!(full, "PANIC: task main, cause 29, pc 0x42001234, addr 0x00000000 | oops");
    assert_eq!(stored, full);
    assert_eq!(collect("x", Dump::Unreadable, None).unwrap().0, "x: core dump present but unreadable");
    assert_eq!(collect("x", Dump::Nothing, Some("p".into())).unwrap().0, "x: p");
    let (full, stored) = collect("x", Dump::Nothing, Some("é".repeat(500))).unwrap();
    assert_eq!((full.chars().count(), stored.chars().count()), (503, 400));
    assert_eq!(panic_text(&"é".repeat(300)).chars().count(), 200);
    assert_eq!(panic_text("short"), "short");
    assert_eq!(last_report(None), "none");
    assert_eq!(last_report(Some("r".into())), "r");
}

// ----- updates ---------------------------------------------------------------------------------------

#[test]
fn versions_are_compared_by_number() {
    assert_eq!(parse_version(" v1.2.3 "), Some((1, 2, 3)));
    assert_eq!(parse_version("1.2"), Some((1, 2, 0)));
    assert_eq!(parse_version("1.2.3-rc1"), Some((1, 2, 3)));
    assert_eq!(parse_version("1"), None);
    assert_eq!(parse_version("1.x"), None);
    assert_eq!(parse_version("1.2.4294967296"), None);
    assert!(is_newer("0.10.0", "0.9.9"));
    assert!(!is_newer("0.9.9", "0.10.0"));
    assert!(!is_newer("1.0.0", "1.0.0"));
    assert!(is_newer("2.0", "1.99.99"));
    assert!(!is_newer("garbage", "1.0.0"));
}

#[test]
fn plain_versions_compare_as_their_numbers() {
    let order = ["0.9.9", "v0.10.0", "0.10.1", "v1.0.0", "1.0.10", "1.2.0", "v4294967295.0.0"];
    for (i, a) in order.iter().enumerate() {
        for (j, b) in order.iter().enumerate() {
            assert_eq!(is_newer(a, b), i > j, "{a} {b}");
        }
        for unreadable in ["", "v", "7", "1.x.0", "4294967296.0.0"] {
            assert!(!is_newer(a, unreadable) && !is_newer(unreadable, a), "{a} {unreadable}");
        }
    }
    assert!(!is_newer("v1.02.3", "1.2.3") && !is_newer("1.2.3", "v1.02.3"));
}

#[test]
fn a_release_is_newer_than_its_pre_releases() {
    assert!(is_newer("1.0.0", "1.0.0-rc1"));
    assert!(!is_newer("1.0.0-rc1", "1.0.0"));
    assert!(is_newer("1.0.1-rc1", "1.0.0"));
    let order = [
        "1.0.0-alpha", "1.0.0-alpha.1", "1.0.0-alpha.beta", "1.0.0-beta", "1.0.0-beta.2", "1.0.0-beta.11",
        "1.0.0-beta.99999999999999999999999", "1.0.0-rc.1", "v1.0.0",
    ];
    for (i, a) in order.iter().enumerate() {
        for (j, b) in order.iter().enumerate() {
            assert_eq!(is_newer(a, b), i > j, "{a} {b}");
        }
    }
    // The build does not count.
    assert!(!is_newer("1.0.0+2", "1.0.0+1"));
    assert!(is_newer("1.0.1+1", "1.0.0+2"));
    assert!(is_newer("1.0.0+build-7", "1.0.0-rc1+9"));
    assert!(!is_newer("1.0.0-rc.01", "1.0.0-rc.1"));
}

#[test]
fn large_descriptions_are_refused() {
    let mut body = Vec::new();
    assert!(take_body(&mut body, &[0; 8192]).is_ok());
    assert_eq!(take_body(&mut body, &[1]), Err("latest.json too large"));
    assert_eq!(body.len(), 8193);
}

#[test]
fn downloads_are_measured() {
    assert_eq!(content_length(Some(" 1000 ")), Some(1000));
    assert_eq!(content_length(Some("x")), None);
    assert_eq!(content_length(None), None);
    assert_eq!(known_size(Some(0)), None);
    assert_eq!(known_size(Some(5)), Some(5));
    let mut d = Download::new(Some(10));
    d.wrote(4);
    assert_eq!(d.finish(), Err("short download: 4 of 10 bytes".to_string()));
    d.wrote(6);
    assert_eq!(d.finish(), Ok(10));
    let mut p = Progress { last_pct: 0 };
    assert_eq!(p.on_progress(9, Some(100)), None);
    assert_eq!(p.on_progress(15, Some(100)), Some("downloading 15%".to_string()));
    assert_eq!(p.on_progress(24, Some(100)), None);
    assert_eq!(p.on_progress(25, Some(100)), Some("downloading 25%".to_string()));
    assert_eq!(p.on_progress(25, None), None);
    assert_eq!(installed_text(7), "installed 7 bytes, rebooting");
    assert_eq!(failed_text("no"), "failed: no");
    assert_eq!(downloading_text("http://x"), "downloading http://x");
}

// ----- settings --------------------------------------------------------------------------------------

fn net(ssid: &str, key: &str) -> NetSettings {
    NetSettings {
        ssid: ssid.into(),
        pass: "pw".into(),
        psk_b64: key.into(),
        name: "relay6".into(),
        friendly_name: "Relay board".into(),
    }
}

#[test]
fn settings_are_assembled_with_defaults() {
    assert!(NetSettings::assemble(None, Some("x".into()), None, None, None).is_none());
    let n = NetSettings::assemble(Some("home".into()), None, None, None, None).unwrap();
    assert_eq!((n.ssid.as_str(), n.pass.as_str(), n.psk_b64.as_str()), ("home", "", ""));
    assert_eq!((n.name.as_str(), n.friendly_name.as_str()), ("relay6", "Relay board"));
}

#[test]
fn settings_are_read_back() {
    let n = net("home", "key");
    let get = |key: &str| n.entries().into_iter().find(|e| e.0 == key).map(|e| e.1);
    let back = NetSettings::assemble(get("ssid"), get("pass"), get("psk"), get("name"), get("friendly")).unwrap();
    assert_eq!(format!("{:?}", back), format!("{:?}", n));
    assert_eq!(format!("{:?}", n.copy()), format!("{:?}", n));
}

#[test]
fn the_seed_is_applied_once() {
    assert!(seed_changed(Some("a"), None));
    assert!(seed_changed(Some("a"), Some("b")));
    assert!(!seed_changed(Some("a"), Some("a")));
    assert!(!seed_changed(None, Some("a")));
    let s = start_with(Some(net("stored", "k")), true, Some(net("seed", "k")));
    assert_eq!((s.net.ssid.as_str(), s.seeded), ("seed", true));
    let s = start_with(Some(net("stored", "k")), false, Some(net("seed", "k")));
    assert_eq!((s.net.ssid.as_str(), s.seeded), ("stored", false));
    let s = start_with(None, false, Some(net("seed", "k")));
    assert_eq!((s.net.ssid.as_str(), s.net.name.as_str(), s.seeded), ("", "relay6", false));
}

#[test]
fn a_reset_device_starts_blank() {
    let stored = NetSettings::assemble(None, None, None, None, None);
    let start = start_with(stored, seed_changed(Some("h"), Some("h")), Some(net("seed", "k")));
    let (n, fresh) = ensure_key(start.net, "new".into());
    assert_eq!((n.ssid.as_str(), n.psk_b64.as_str(), n.name.as_str(), fresh), ("", "new", "relay6", true));
}

#[test]
fn every_device_gets_a_key() {
    let (n, fresh) = ensure_key(net("home", ""), "new".into());
    assert_eq!((n.psk_b64.as_str(), n.ssid.as_str(), fresh), ("new", "home", true));
    let (n, fresh) = ensure_key(net("home", "old"), "new".into());
    assert_eq!((n.psk_b64.as_str(), fresh), ("old", false));
}

#[test]
fn a_reset_removes_what_a_new_owner_should_not_inherit() {
    assert_eq!(reset_net_keys(), vec!["ssid", "pass", "psk", "name", "friendly"]);
    assert_eq!(reset_relay_keys(), vec!["cfg", "sched", "tz"]);
    assert_eq!(stored_tz(Some("".into())), None);
    assert_eq!(stored_tz(Some("UTC0".into())), Some("UTC0".into()));
    assert_eq!(first_tz(Some("UTC0".into()), "WET0"), Some("UTC0".into()));
    assert_eq!(first_tz(Some("".into()), "WET0"), Some("WET0".into()));
    assert_eq!(first_tz(None, ""), None);
}

#[test]
fn secrets_become_variables() {
    assert_eq!(seed_hash(""), "cbf29ce484222325");
    assert_eq!(seed_hash("a"), "af63dc4c8601ec8c");
    let text = "# comment\n\nWIFI_SSID = home\r\nWIFI_PASS=a=b\nnonsense\n";
    let vars = seed_variables(text);
    let vars: Vec<(&str, &str)> = vars.iter().map(|v| (v.0.as_str(), v.1.as_str())).collect();
    assert_eq!(vars, vec![("SEED_WIFI_SSID", "home"), ("SEED_WIFI_PASS", "a=b")]);
}

#[test]
fn the_device_is_named_after_its_mac() {
    let mac = [0x10, 0x51, 0xdb, 0x47, 0xab, 0xb0];
    assert_eq!(node_name("relay6", &mac), "relay6-47abb0");
    let d = identify(&net("home", "k"), &mac, "1.2.3");
    assert_eq!((d.name.as_str(), d.mac_address.as_str()), ("relay6-47abb0", "10:51:db:47:ab:b0"));
    assert_eq!((d.project_version.as_str(), d.encryption), ("1.2.3", true));
    assert_eq!(api_key(&net("home", "")), Ok(None));
    assert_eq!(api_key(&net("home", "MDAwMDAwMDAwMDAwMDAwMDAwMDAwMDAwMDAwMDAwMDA=")), Ok(Some([b'0'; 32])));
    assert!(api_key(&net("home", "MDAw")).unwrap_err().starts_with("bad NOISE_PSK: key must decode"));
}

// ----- portal ----------------------------------------------------------------------------------------

fn request(ssid: &str, key: &str, current: &str) -> SaveRequest {
    SaveRequest {
        ssid: ssid.into(),
        password: " p ".into(),
        name: " My Relay!! ".into(),
        friendly_name: "".into(),
        api_key: key.into(),
        current_key: current.into(),
    }
}

#[test]
fn saving_needs_the_key_over_the_lan_only() {
    let good = "MDAwMDAwMDAwMDAwMDAwMDAwMDAwMDAwMDAwMDAwMDA=";
    let cur = net("old", good);
    assert_eq!(save(request("new", "", "wrong"), &cur, false).unwrap_err(), "current API key does not match");
    let n = save(request(" new ", "", good), &cur, false).unwrap();
    assert_eq!((n.ssid.as_str(), n.pass.as_str(), n.psk_b64.as_str()), ("new", " p ", good));
    assert_eq!((n.name.as_str(), n.friendly_name.as_str()), ("my-relay", "Relay board"));
    assert!(save(request("new", "", ""), &cur, true).is_ok(), "through the access point");
    assert_eq!(save(request("  ", "", ""), &cur, true).unwrap_err(), "ssid is required");
    assert_eq!(save(request("new", "short", ""), &cur, true).unwrap_err(), "API key must be base64 of 32 bytes");
    assert_eq!(decide_save(request("new", "k", ""), &cur, true, true).unwrap().psk_b64, "k");
    assert_eq!(refusal_body("no"), r#"{"ok":false,"error":"no"}"#);
    assert!(!body_fits(0) && body_fits(1) && body_fits(4096) && !body_fits(4097));
}

#[test]
fn the_key_is_shown_on_the_setup_network_only() {
    let cur = net("home", "secret");
    let k = key_status(&cur, true, true);
    assert_eq!((k.has_key, k.api_key.as_deref()), (true, Some("secret")));
    assert!(key_status(&cur, false, true).api_key.is_none());
    assert!(key_status(&cur, true, false).api_key.is_none());
    assert!(!key_status(&net("home", ""), true, true).has_key);
}

#[test]
fn peers_are_known_by_their_address() {
    let mut raw = [0u8; 32];
    raw[1] = 2;
    raw[4..8].copy_from_slice(&[192, 168, 4, 7]);
    assert_eq!(peer_ipv4(&raw, 2, 10), Some([192, 168, 4, 7]));
    assert!(via_ap(Some([192, 168, 4, 7])));
    assert!(!via_ap(Some([192, 168, 5, 7])));
    assert!(!via_ap(None));
    let mut raw = [0u8; 32];
    raw[1] = 10;
    raw[18] = 0xff;
    raw[19] = 0xff;
    raw[20..24].copy_from_slice(&[10, 0, 0, 1]);
    assert_eq!(peer_ipv4(&raw, 2, 10), Some([10, 0, 0, 1]));
    raw[9] = 1;
    assert_eq!(peer_ipv4(&raw, 2, 10), None);
    raw[1] = 3;
    assert_eq!(peer_ipv4(&raw, 2, 10), None);
}

#[test]
fn node_names_are_hostname_safe() {
    assert_eq!(sanitize_name("Garden Relay #1"), "garden-relay-1");
    assert_eq!(sanitize_name("--a--b--"), "a-b");
    assert_eq!(sanitize_name("ÄÖÜ"), "relay6");
    assert_eq!(sanitize_name(""), "relay6");
    assert_eq!(sanitize_name("abcdefghijklmnopqrstuvwxyz"), "abcdefghijklmnopqrstuvwx");
    // Cut after trimming: a dash may end up last.
    assert_eq!(sanitize_name("abcdefghijklmnopqrstuvw xyz"), "abcdefghijklmnopqrstuvw-");
}

#[test]
fn probes_and_strangers_are_sent_to_the_setup_page() {
    assert!(bounces(true, "/generate_204?x", Some("192.168.4.1")));
    assert!(bounces(true, "/", Some("example.com")));
    assert!(bounces(true, "/", None));
    assert!(!bounces(true, "/nothing", Some("192.168.4.1:80")));
    assert!(!bounces(false, "/generate_204", None));
}

#[test]
fn every_name_resolves_to_the_access_point() {
    let mut q = vec![0xab, 0xcd, 1, 0, 0, 1, 0, 0, 0, 0, 0, 0];
    q.extend([1, b'a', 2, b'b', b'c', 0, 0, 1, 0, 1]);
    let r = dns_reply(&q, true, "192.168.4.2").unwrap();
    let mut want = vec![0xab, 0xcd, 0x81, 0x80, 0, 1, 0, 1, 0, 0, 0, 0];
    want.extend([1, b'a', 2, b'b', b'c', 0, 0, 1, 0, 1]);
    want.extend([0xc0, 0x0c, 0, 1, 0, 1, 0, 0, 0, 30, 0, 4, 192, 168, 4, 1]);
    assert_eq!(r, want);
    assert!(dns_reply(&q, false, "192.168.4.2").is_none());
    assert!(dns_reply(&q, true, "10.0.0.2").is_none());
    assert!(dns_reply(&q[..11], true, "192.168.4.2").is_none());
    assert!(dns_reply(&q[..20], true, "192.168.4.2").is_none(), "cut short");
    assert!(dns_reply(&[255; 20], true, "192.168.4.2").is_none(), "label runs past the end");
}

// ----- WiFi ------------------------------------------------------------------------------------------

fn found(ssid: &str, rssi: i8, channel: u8, auth: Option<Auth>) -> Found {
    Found { ssid: ssid.into(), rssi, channel, auth }
}

#[test]
fn scans_list_the_strongest_of_each_name() {
    let list = scan_list(vec![
        found("b", -60, 1, Some(Auth::Protected)),
        found("", -10, 2, None),
        found("a", -60, 3, Some(Auth::Open)),
        found("b", -50, 4, None),
        found("c", -40, 5, Some(Auth::Protected)),
        found("a", -60, 6, Some(Auth::Protected)),
        found("d", -50, 7, Some(Auth::Protected)),
    ]);
    let got: Vec<(&str, i8, u8, bool)> = list.iter().map(|a| (a.ssid.as_str(), a.rssi, a.channel, a.secure)).collect();
    assert_eq!(got, vec![("c", -40, 5, true), ("b", -50, 4, false), ("d", -50, 7, true), ("a", -60, 3, false)]);
}

#[test]
fn the_radio_is_configured_for_what_is_needed() {
    assert_eq!(configure("home", "", false, "ap"), Ok(RadioMode::Station));
    assert_eq!(configure("home", "", true, "ap"), Ok(RadioMode::StationAndAp));
    assert_eq!(configure("", "", true, "ap"), Ok(RadioMode::StationAndAp));
    assert_eq!(configure("", "", false, "ap"), Ok(RadioMode::Off));
    assert_eq!(configure(&"x".repeat(33), "", false, "ap"), Err("ssid too long"));
    assert_eq!(configure("x", &"x".repeat(65), false, "ap"), Err("password too long"));
    assert_eq!(configure("x", "", true, &"x".repeat(33)), Err("ap ssid too long"));
    assert_eq!(configure("", &"x".repeat(65), false, "ap"), Ok(RadioMode::Off));
    assert_eq!(station_auth(""), Auth::Open);
    assert_eq!(station_auth("p"), Auth::Protected);
}

#[test]
fn the_station_keeps_trying_with_longer_pauses() {
    let mut w = Wifi::new("home".into(), "pw".into(), "ap".into(), false, 0);
    assert_eq!(w.due_configuration(), Some(Ok(RadioMode::Station)));
    w.applied(0, None);
    assert_eq!(w.due_configuration(), None);
    assert!(w.scan_due());
    w.scanned(0, None);
    assert!(!w.scan_due());
    let mut now = 0;
    for pause in [2_000, 4_000, 8_000, 16_000, 32_000, 60_000, 60_000] {
        assert_eq!(w.poll(now, false, false, ""), Demand::Connect);
        w.connecting(now, true);
        assert_eq!(w.poll(now + 20_000, false, false, ""), Demand::Nothing);
        now += 20_001;
        assert_eq!(w.poll(now, false, false, ""), Demand::GiveUp);
        assert_eq!(w.state().last_error, "could not join home (wrong password?)");
        assert_eq!(w.poll(now + pause - 1, false, false, ""), Demand::Nothing);
        now += pause;
    }
    assert_eq!(w.poll(now, true, true, "10.0.0.5"), Demand::Up);
    assert!(w.state().sta_connected);
    assert_eq!((w.state().sta_ip.as_str(), w.state().last_error.as_str()), ("10.0.0.5", ""));
    for _ in 0..59 {
        assert_eq!(w.poll(now, true, true, ""), Demand::Nothing);
    }
    assert_eq!(w.poll(now, true, true, ""), Demand::ReadSignal);
    assert_eq!(w.poll(now, false, false, ""), Demand::Lost);
    assert_eq!(w.poll(now + 999, false, false, ""), Demand::Nothing);
    assert_eq!(w.poll(now + 1_000, false, false, ""), Demand::Connect);
    w.connecting(now + 1_000, false);
    assert_eq!(w.poll(now + 2_999, false, false, ""), Demand::Nothing);
    assert_eq!(w.poll(now + 3_000, false, false, ""), Demand::Connect);
}

#[test]
fn commands_reconfigure_the_radio() {
    let mut w = Wifi::new("".into(), "".into(), "ap".into(), true, 0);
    w.applied(0, Some("radio broke".into()));
    assert_eq!((w.state().last_error.as_str(), w.state().ap_active), ("radio broke", true));
    assert_eq!(w.poll(0, false, false, ""), Demand::Nothing, "no network name");
    w.command(WifiCmd::StartAp);
    assert_eq!(w.due_configuration(), None, "already open");
    w.command(WifiCmd::StopAp);
    assert_eq!(w.due_configuration(), Some(Ok(RadioMode::Off)));
    w.command(WifiCmd::SetStation { ssid: "home".into(), pass: "pw".into() });
    assert_eq!(w.due_configuration(), Some(Ok(RadioMode::Station)));
    w.applied(5, None);
    assert_eq!((w.ssid(), w.pass(), w.state().sta_ssid.as_str()), ("home", "pw", "home"));
    w.scanned(6, Some(vec![found("x", -1, 1, None)]));
    assert_eq!(w.state().scan.len(), 1);
    w.command(WifiCmd::Scan);
    assert!(w.scan_due());
}

// ----- button and clients ----------------------------------------------------------------------------

#[test]
fn the_button_fires_once_per_press() {
    let mut t = Ticker::new();
    let (mut long, mut reset, mut ticks) = (Vec::new(), Vec::new(), 0);
    for n in 0..200 {
        let s = t.sample(true);
        if s.long_press {
            long.push(n);
        }
        if s.factory_reset {
            reset.push(n);
        }
        ticks += s.tick as u32;
    }
    assert_eq!((long, reset, ticks), (vec![49], vec![149], 20));
    assert!(!t.sample(false).long_press);
    let fired = (0..60).filter(|_| t.sample(true).long_press).count();
    assert_eq!(fired, 1);
    assert!(admits(2) && !admits(3));
}

// ----- numbers and entities --------------------------------------------------------------------------

#[test]
fn numbers_are_turned_into_single_precision() {
    for n in [0u64, 1, 2, 3, 1440, 16_777_215, 16_777_216, 16_777_217, 16_777_219, 33_554_433, 4_294_967_295, u64::MAX, u64::MAX / 3] {
        assert_eq!(float_bits(n), (n as f32).to_bits(), "{n}");
    }
    for v in [0i32, 1, -1, -70, 70, i32::MAX, i32::MIN] {
        assert_eq!(signed_float_bits(v), (v as f32).to_bits(), "{v}");
    }
}

#[test]
fn numbers_are_clamped_and_rounded() {
    let check = |v: f32, max: u16| {
        assert_eq!(whole_number(v.to_bits(), max), v.clamp(0.0, max as f32).round() as u16, "{v} {max}");
    };
    for v in [0.0, -0.0, 0.4, 0.5, 0.49999997, 1.5, 2.5, 1439.5, 1440.0, 1440.4, 9e9, -3.0, f32::INFINITY, f32::NEG_INFINITY, f32::NAN, 1e-40, 71.5, 65535.0, 65536.0] {
        check(v, 1440);
        check(v, 72);
        check(v, 65535);
    }
    for n in 0..=1440u16 {
        assert_eq!(whole_number(float_bits(n as u64), 1440), n);
    }
}

#[test]
fn options_select_modes() {
    for m in Mode::ALL {
        assert_eq!(mode_from_option(mode_label(m)), Some(m));
        assert_eq!(mode_from_option(m.as_str()), Some(m));
        assert_eq!(mode_from_option(&mode_label(m).to_uppercase()), Some(m));
    }
    assert_eq!(mode_from_option(" Manual only "), Some(Mode::Manual));
    assert_eq!(mode_from_option("OFF!"), Some(Mode::Off));
    assert_eq!(mode_from_option("on"), None);
}

#[test]
fn the_board_has_its_entities() {
    let (r, k) = build();
    assert_eq!(r.len(), 71);
    let ids: Vec<&str> = r.iter().iter().map(|e| e.meta.object_id.as_str()).collect();
    assert_eq!(&ids[..5], &["relay_1", "relay_1_max_on", "relay_1_safeguard", "relay_1_safe_state", "relay_2"]);
    assert_eq!(&ids[24..27], &["mode", "exclusive", "link"]);
    assert_eq!(ids[44], "heap_min");
    assert_eq!(&ids[45..50], &["relay_1_max_daily", "relay_1_on_today", "relay_1_total_on", "relay_1_daily_limit", "relay_2_max_daily"]);
    assert_eq!(&ids[69..], &["last_crash", "clear_crash"]);
    assert_eq!(k.max_daily_channel(k.max_daily[5]), Some(5));
    assert_eq!((k.mode, k.heap_min), (0xc57b_7248, 0x9673_9752));
    let mut all: Vec<u32> = r.iter().iter().map(|e| e.key).collect();
    all.sort();
    all.dedup();
    assert_eq!(all.len(), 71, "no two share a key");
    let e = r.get(k.max_on[5]).unwrap();
    assert_eq!((e.meta.name.as_str(), e.meta.icon.as_str()), ("Relay 6 max on time", "mdi:timer-off-outline"));
    assert_eq!(r.get(k.tripped[0]).unwrap().meta.device_class, "problem");
    assert_eq!(k.relay_channel(k.relay[3]), Some(3));
    assert_eq!(k.max_on_channel(k.max_on[2]), Some(2));
    assert_eq!(k.safe_state_channel(k.safe_state[4]), Some(4));
    assert_eq!(k.relay_channel(k.mode), None);
    assert!(!r.get(k.ota).unwrap().has_state());
}
