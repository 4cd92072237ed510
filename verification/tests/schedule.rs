//! Weekly schedules: reading, validating, evaluating.

use relay6::channel_map;
use relay6::{Block, DayMask, LocalTime, Schedule, Weekday, CHANNELS};
use serde_json::Value;

const SAMPLE: &str = r#"{
      "rev": 42,
      "tz": "WET0WEST,M3.5.0/1,M10.5.0",
      "channels": {
        "1": [ {"days": "MTWTF--", "from": 360, "to": 420} ],
        "2": [ {"days": "-----SS", "from": 480, "to": 540},
               {"days": "MTWTFSS", "from": 1200, "to": 1260} ],
        "6": [ {"days": "MTWTFSS", "from": 0, "to": 1440} ]
      }
    }"#;

/// A schedule from its JSON form: the document is taken apart here, and everything in it is read
/// by the library.
fn from_json(json: &str) -> Result<Schedule, String> {
    let v: Value = serde_json::from_str(json).map_err(|e| e.to_string())?;
    let mut map: Vec<(String, Vec<Block>)> = Vec::new();
    if let Some(channels) = v.get("channels").and_then(Value::as_object) {
        for (key, list) in channels {
            let mut blocks = Vec::new();
            for b in list.as_array().ok_or("not a list")? {
                let number = |name: &str| {
                    b.get(name).and_then(Value::as_u64).and_then(|n| u16::try_from(n).ok()).ok_or("no number")
                };
                blocks.push(Block {
                    days: DayMask::parse(b.get("days").and_then(Value::as_str).ok_or("no days")?)?,
                    from: number("from")?,
                    to: number("to")?,
                });
            }
            map.push((key.clone(), blocks));
        }
    }
    let s = Schedule {
        rev: u32::try_from(v.get("rev").and_then(Value::as_u64).unwrap_or(0)).map_err(|e| e.to_string())?,
        tz: v.get("tz").and_then(Value::as_str).unwrap_or("").to_string(),
        channels: channel_map::deserialize(map)?,
    };
    s.validate()?;
    Ok(s)
}

/// The JSON form of a schedule: the document is put together here, and everything in it is
/// written by the library.
fn to_json(s: &Schedule) -> String {
    let mut channels = Vec::new();
    for (key, blocks) in channel_map::serialize(&s.channels) {
        let list: Vec<String> = blocks
            .iter()
            .map(|b| format!(r#"{{"days":"{}","from":{},"to":{}}}"#, b.days.to_string(), b.from, b.to))
            .collect();
        channels.push(format!(r#""{}":[{}]"#, key, list.join(",")));
    }
    let tz = Value::String(s.tz.clone());
    format!(r#"{{"rev":{},"tz":{},"channels":{{{}}}}}"#, s.rev, tz, channels.join(","))
}

#[test]
fn parses_sample() {
    let s = from_json(SAMPLE).unwrap();
    assert_eq!(s.rev, 42);
    assert_eq!(s.tz, "WET0WEST,M3.5.0/1,M10.5.0");
    assert_eq!(s.channels[0].len(), 1);
    assert_eq!(s.channels[1].len(), 2);
    assert!(s.channels[2].is_empty());
    assert_eq!(s.channels[5].len(), 1);
    assert_eq!(s.block_count(), 4);
    assert_eq!(s.channels[0][0].days, DayMask(0b0001_1111));
}

#[test]
fn evaluates_blocks() {
    let s = from_json(SAMPLE).unwrap();
    // ch1 weekdays 06:00-07:00
    assert!(s.wants_on(0, LocalTime::new(Weekday::Mon, 6, 0)));
    assert!(s.wants_on(0, LocalTime::new(Weekday::Fri, 6, 59)));
    assert!(!s.wants_on(0, LocalTime::new(Weekday::Fri, 7, 0)), "end is exclusive");
    assert!(!s.wants_on(0, LocalTime::new(Weekday::Sat, 6, 30)), "weekend excluded");
    // ch2 weekend mornings + every evening
    assert!(s.wants_on(1, LocalTime::new(Weekday::Sun, 8, 0)));
    assert!(!s.wants_on(1, LocalTime::new(Weekday::Mon, 8, 0)));
    assert!(s.wants_on(1, LocalTime::new(Weekday::Wed, 20, 30)));
    // ch3 has no blocks
    assert!(!s.wants_on(2, LocalTime::new(Weekday::Wed, 20, 30)));
    // ch6 always on, including the last minute of the day
    assert!(s.wants_on(5, LocalTime::new(Weekday::Sun, 23, 59)));
    assert_eq!(s.wanted(LocalTime::new(Weekday::Mon, 6, 30)), [true, false, false, false, false, true]);
}

#[test]
fn round_trips_json() {
    let s = from_json(SAMPLE).unwrap();
    let again = from_json(&to_json(&s)).unwrap();
    assert_eq!(s, again);
    assert!(to_json(&s).contains("\"MTWTF--\""));
}

#[test]
fn rejects_bad_input() {
    assert!(from_json(r#"{"channels":{"7":[]}}"#).is_err(), "channel out of range");
    assert!(from_json(r#"{"channels":{"0":[]}}"#).is_err());
    assert!(from_json(r#"{"channels":{"1":[{"days":"MTWTF--","from":600,"to":600}]}}"#).is_err(), "empty block");
    assert!(from_json(r#"{"channels":{"1":[{"days":"MTWTF--","from":600,"to":1441}]}}"#).is_err(), "past midnight");
    assert!(from_json(r#"{"channels":{"1":[{"days":"MTWTF","from":0,"to":10}]}}"#).is_err(), "short days");
    assert!(from_json(r#"{"channels":{"1":[{"days":"XTWTF--","from":0,"to":10}]}}"#).is_err(), "bad letter");
    assert!(from_json("not json").is_err());
}

#[test]
fn empty_schedule_is_valid() {
    let s = from_json("{}").unwrap();
    assert_eq!(s.block_count(), 0);
    assert_eq!(s.wanted(LocalTime::new(Weekday::Mon, 12, 0)), [false; CHANNELS]);
    assert_eq!(to_json(&s), r#"{"rev":0,"tz":"","channels":{}}"#);
    assert_eq!(s, Schedule::default());
}

#[test]
fn channels_survive_their_map() {
    let s = from_json(SAMPLE).unwrap();
    let map = channel_map::serialize(&s.channels);
    let keys: Vec<&str> = map.iter().map(|x| x.0.as_str()).collect();
    assert_eq!(keys, vec!["1", "2", "6"]);
    assert_eq!(map[0].1[0].days.to_string(), "MTWTF--");
    assert_eq!(channel_map::deserialize(map).unwrap(), s.channels);
}

#[test]
fn complaints_name_the_culprit() {
    assert_eq!(channel_map::deserialize(vec![("7".into(), vec![])]).unwrap_err(), from_json(r#"{"channels":{"7":[]}}"#).unwrap_err());
    let e = from_json(r#"{"channels":{"2":[{"days":"MTWTF--","from":600,"to":600}]}}"#).unwrap_err();
    assert!(e.starts_with("channel 2: "), "{}", e);
}

#[test]
fn bad_days_are_quoted() {
    assert_eq!(DayMask::parse("MTWTF").unwrap_err(), r#"days must be 7 characters, got "MTWTF""#);
    assert_eq!(DayMask::parse("M\tWTFSS").unwrap_err(), r#"unexpected '\t' at position 1 in "M\tWTFSS""#);
    assert_eq!(
        channel_map::deserialize(vec![("one\n".into(), vec![])]).unwrap_err(),
        r#"channel key "one\n" is not a number"#
    );
}

#[test]
fn day_mask_parsing() {
    assert_eq!(DayMask::parse("MTWTFSS").unwrap(), DayMask::all());
    assert_eq!(DayMask::parse("-------").unwrap(), DayMask(0));
    assert_eq!(DayMask::parse("mtwtfss").unwrap(), DayMask::all(), "case-insensitive");
    assert_eq!(DayMask::parse("M-----S").unwrap().to_string(), "M-----S");
    assert_eq!(Weekday::from_tm_wday(0), Weekday::Sun);
    assert_eq!(Weekday::from_tm_wday(1), Weekday::Mon);
    assert_eq!(Weekday::from_tm_wday(6), Weekday::Sat);
}

#[test]
fn only_a_dash_leaves_a_day_out() {
    assert_eq!(DayMask::parse("M_-----").unwrap(), DayMask(0b0000_0011));
    assert_eq!(DayMask::parse("_. ----").unwrap(), DayMask(0b0000_0111));
    assert_eq!(DayMask::parse("------.").unwrap(), DayMask(0b0100_0000));
    assert_eq!(DayMask::parse("       ").unwrap(), DayMask::all());
    assert_eq!(DayMask::parse("M_-----").unwrap().to_string(), "MT-----");
    assert_eq!(DayMask::parse("M-X----").unwrap_err(), r#"unexpected 'X' at position 2 in "M-X----""#);
}

#[test]
fn every_day_mask_survives_its_text() {
    for m in 0..128u8 {
        assert_eq!(DayMask::parse(&DayMask(m).to_string()).unwrap(), DayMask(m));
    }
    assert!(DayMask::parse("MTWTF").is_err());
    assert!(DayMask::parse("XTWTF--").is_err());
}

#[test]
fn states_tell_revision_and_blocks() {
    let s = from_json(SAMPLE).unwrap();
    let st = s.state(true);
    assert_eq!((st.rev, st.ok, st.blocks), (42, true, 4));
}
