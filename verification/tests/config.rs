//! Settings and their names.

use relay6::{ChannelConfig, Config, Mode, CHANNELS};
use serde_json::Value;

/// Settings from their JSON form, with defaults for what is missing.
fn from_json(json: &str) -> Result<Config, String> {
    let v: Value = serde_json::from_str(json).map_err(|e| e.to_string())?;
    let mut c = Config::default();
    if let Some(name) = v.get("mode").and_then(Value::as_str) {
        c.mode = Mode::parse(name).ok_or("unknown mode")?;
    }
    if let Some(list) = v.get("channels").and_then(Value::as_array) {
        for (ch, x) in list.iter().enumerate().take(CHANNELS) {
            let number = |name: &str| {
                u16::try_from(x.get(name).and_then(Value::as_u64).unwrap_or(0)).map_err(|e| e.to_string())
            };
            c.channels[ch] = ChannelConfig {
                max_on_min: number("max_on_min")?,
                safe_state: x.get("safe_state").and_then(Value::as_bool).unwrap_or(false),
                max_daily_min: number("max_daily_min")?,
            };
        }
    }
    c.offline_grace_s =
        u32::try_from(v.get("offline_grace_s").and_then(Value::as_u64).unwrap_or(0)).map_err(|e| e.to_string())?;
    c.exclusive = v.get("exclusive").and_then(Value::as_bool).unwrap_or(false);
    c.buzzer = v.get("buzzer").and_then(Value::as_bool).unwrap_or(true);
    c.rain_hold_until = v.get("rain_hold_until").and_then(Value::as_u64).unwrap_or(0);
    Ok(c)
}

/// The JSON form of settings.
fn to_json(c: &Config) -> String {
    let channels: Vec<String> = c
        .channels
        .iter()
        .map(|x| {
            format!(
                r#"{{"max_on_min":{},"safe_state":{},"max_daily_min":{}}}"#,
                x.max_on_min, x.safe_state, x.max_daily_min
            )
        })
        .collect();
    format!(
        r#"{{"mode":"{}","channels":[{}],"offline_grace_s":{},"exclusive":{},"buzzer":{},"rain_hold_until":{}}}"#,
        c.mode.as_str(), channels.join(","), c.offline_grace_s, c.exclusive, c.buzzer, c.rain_hold_until
    )
}

#[test]
fn defaults_and_round_trip() {
    let c = Config::default();
    assert_eq!(c.mode, Mode::Auto);
    assert_eq!(c.channels[3].max_on_min, 0);
    let again = from_json(&to_json(&c)).unwrap();
    assert_eq!(c, again);
    // Partial JSON fills in defaults.
    let partial = from_json(r#"{"mode":"manual"}"#).unwrap();
    assert_eq!(partial.mode, Mode::Manual);
    assert_eq!(partial.offline_grace_s, 0);
    assert!(!partial.exclusive, "old configs without the field default to off");
    assert!(partial.buzzer, "buzzer defaults to on for old configs");
    assert_eq!(Mode::parse(" OFF "), Some(Mode::Off));
    assert_eq!(Mode::parse("nope"), None);
}

#[test]
fn a_fresh_device_has_these_settings() {
    let c = Config::default();
    assert_eq!(c.mode, Mode::Auto);
    assert_eq!(c.channels[3].max_on_min, 0);
    assert_eq!(c.channels[3], ChannelConfig::default());
    assert_eq!(c.offline_grace_s, 0);
    assert!(!c.exclusive);
    assert!(c.buzzer);
    assert_eq!(c.rain_hold_until, 0);
}

#[test]
fn modes_are_named_in_any_case() {
    assert_eq!(Mode::parse("\tAuTo\n"), Some(Mode::Auto));
    for m in Mode::ALL {
        assert_eq!(Mode::parse(m.as_str()), Some(m));
    }
}
