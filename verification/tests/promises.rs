//! What the library promises as a whole, on concrete values.

use relay6::firmware::wifi::{configure, RadioMode};
use relay6::{Action, Block, Config, Controller, DayMask, Link, LocalTime, Mode, Schedule, Weekday};

fn t(h: u16, m: u16) -> LocalTime {
    LocalTime::new(Weekday::Tue, h, m)
}

fn morning() -> Schedule {
    let mut s = Schedule::default();
    s.rev = 1;
    s.channels[0].push(Block { days: DayMask::all(), from: 360, to: 420 });
    s
}

fn switched(acts: &[Action]) -> Vec<(usize, bool)> {
    acts.iter()
        .filter_map(|a| match a {
            Action::SetRelay { ch, on } => Some((*ch, *on)),
            _ => None,
        })
        .collect()
}

/// Every input once or more, all actions played on a board: whatever happens, the board shows
/// what the controller believes, and with the interlock at most one relay is ever on.
#[test]
fn the_board_follows_the_controller_and_the_interlock_holds() {
    let mut cfg = Config::default();
    cfg.exclusive = true;
    cfg.channels[2].safe_state = true;
    cfg.channels[3].safe_state = true;
    cfg.channels[1].max_on_min = 3;
    let mut c = Controller::new(cfg, morning());
    let mut board = [false; 6];
    let mut x: u64 = 7;
    for n in 0..4_000u64 {
        x = x.wrapping_mul(6364136223846793005).wrapping_add(1442695040888963407);
        let now = n * 20_000;
        let local = t(((now / 3_600_000) % 24) as u16, ((now / 60_000) % 60) as u16);
        let known = (x >> 60) != 0;
        let when = if known { Some(local) } else { None };
        let (ch, on) = ((x >> 33) as usize % 6, (x >> 40) & 1 == 1);
        let acts = match (x >> 50) % 8 {
            0 => c.on_ha_connected(now),
            1 => c.on_ha_disconnected(now, when),
            2 | 3 => c.on_ha_command(ch, on, now),
            4 => c.on_local_command(ch, on, now),
            5 => c.set_safe_state(ch, on, now),
            6 => c.set_max_on_min(ch, (x >> 44) as u16 % 5, now),
            _ => c.tick(now, when),
        };
        for (ch, on) in switched(&acts) {
            assert_ne!(board[ch], on, "every switch changes something");
            board[ch] = on;
            assert!(board.iter().filter(|r| **r).count() <= 1, "step {n}");
        }
        assert_eq!(board, c.relays());
    }
}

#[test]
fn a_second_tick_changes_nothing() {
    let mut c = Controller::new(Config::default(), morning());
    assert!(!c.tick(1_000, Some(t(6, 30))).is_empty());
    assert!(c.tick(1_000, Some(t(6, 30))).is_empty());
}

#[test]
fn a_repeated_command_switches_nothing() {
    let mut c = Controller::new(Config::default(), Schedule::default());
    c.on_ha_connected(0);
    assert_eq!(switched(&c.on_ha_command(3, true, 1)), vec![(3, true)]);
    assert!(switched(&c.on_ha_command(3, true, 2)).is_empty());
}

#[test]
fn local_commands_work_without_home_assistant() {
    let mut c = Controller::new(Config::default(), Schedule::default());
    assert_eq!(switched(&c.on_local_command(5, true, 0)), vec![(5, true)]);
    c.set_mode(Mode::Off, 1, None);
    assert!(switched(&c.on_local_command(5, true, 2)).is_empty(), "everything is off");
}

#[test]
fn without_the_time_the_safe_state_holds() {
    let mut cfg = Config::default();
    cfg.channels[2].safe_state = true;
    let mut c = Controller::new(cfg, morning());
    c.on_ha_connected(0);
    c.on_ha_command(0, true, 1);
    let acts = c.on_ha_disconnected(2, None);
    assert!(acts.contains(&Action::LinkChanged(Link::OfflineUnknownTime)));
    assert_eq!(c.relays(), [false, false, true, false, false, false]);
}

#[test]
fn totals_never_fall_and_midnight_clears_the_day() {
    let mut cfg = Config::default();
    cfg.channels[0].max_daily_min = 1;
    let mut c = Controller::new(cfg, Schedule::default());
    c.on_ha_connected(0);
    c.tick(0, Some(t(23, 58).with_day(1)));
    c.on_ha_command(0, true, 0);
    let acts = c.tick(60_000, Some(t(23, 59).with_day(1)));
    assert!(acts.contains(&Action::DailyCapReached { ch: 0 }));
    assert_eq!((c.on_today_min()[0], c.total_min()[0]), (1, 1));
    assert!(switched(&c.on_ha_command(0, true, 61_000)).is_empty(), "the budget is spent");
    assert!(switched(&c.on_local_command(0, true, 62_000)).is_empty(), "for everyone");
    let acts = c.tick(120_000, Some(t(0, 0).with_day(2)));
    assert!(acts.contains(&Action::DayRolled));
    assert_eq!((c.on_today_min()[0], c.total_min()[0]), (0, 1));
    assert_eq!(switched(&c.on_ha_command(0, true, 121_000)), vec![(0, true)]);
}

#[test]
fn only_a_new_schedule_replaces_the_old() {
    let mut c = Controller::new(Config::default(), morning());
    c.on_ha_connected(0);
    c.set_mode(Mode::Manual, 1, Some(t(7, 0)));
    c.all_off(2);
    c.on_ha_disconnected(3, None);
    assert_eq!(c.schedule(), &morning());
    c.set_schedule(Schedule::default(), 4, None);
    assert_eq!(c.schedule(), &Schedule::default());
}

#[test]
fn an_open_access_point_can_scan() {
    for ssid in ["", "home"] {
        assert_eq!(configure(ssid, "", true, "setup"), Ok(RadioMode::StationAndAp));
    }
}

#[test]
fn home_assistant_takes_over_without_disturbing_relays() {
    let mut c = Controller::new(Config::default(), morning());
    c.on_time_known(0, t(6, 30));
    assert_eq!(c.relays(), [true, false, false, false, false, false]);
    assert!(switched(&c.on_ha_connected(1_000)).is_empty());
    assert_eq!(c.link(), Link::Online);
}

#[test]
fn the_emergency_stop_and_mode_off_turn_everything_off() {
    let mut c = Controller::new(Config::default(), Schedule::default());
    for ch in 0..6 {
        c.on_local_command(ch, true, 0);
    }
    c.all_off(1);
    assert_eq!(c.relays(), [false; 6]);
    c.on_local_command(2, true, 2);
    c.set_mode(Mode::Off, 3, None);
    c.on_ha_connected(4);
    c.on_ha_command(2, true, 5);
    c.tick(6, Some(t(6, 30)));
    assert_eq!(c.relays(), [false; 6]);
}

#[test]
fn a_rain_hold_turns_the_relays_off() {
    let mut c = Controller::new(Config::default(), morning());
    c.set_epoch(Some(1_800_000_000));
    c.on_time_known(0, t(6, 30));
    assert_eq!(switched(&c.set_rain_hold(2, 1_000, Some(t(6, 30)))), vec![(0, false)]);
    assert!(c.rain_hold_active());
}

/// The schedule applies after every transition to offline, also if it happened without a local time.
#[test]
fn a_missed_schedule_is_made_up_for() {
    let mut cfg = Config::default();
    cfg.offline_grace_s = 120;
    let mut c = Controller::new(cfg, Schedule::default());
    let noon = |m| LocalTime::new(Weekday::Tue, 12, m);
    c.on_time_known(0, noon(0));
    c.on_ha_connected(0);
    c.on_ha_command(2, true, 0);
    // The grace time has run out, and this is the first to notice.
    let acts = c.set_safe_state(0, false, 121_000);
    assert!(acts.contains(&Action::LinkChanged(Link::OfflineSchedule)));
    assert!(c.relays()[2]);
    let acts = c.tick(122_000, Some(noon(2)));
    assert_eq!(switched(&acts), vec![(2, false)]);
    assert_eq!(c.relays(), [false; 6]);
    // A local override is then left alone.
    c.on_local_command(2, true, 123_000);
    assert!(switched(&c.tick(124_000, Some(noon(2)))).is_empty());
}

/// A budget that is already used up blocks at once, whoever asks, until it is lifted.
#[test]
fn a_late_budget_blocks_an_idle_relay() {
    const MIN: u64 = 60_000;
    let mut c = Controller::new(Config::default(), Schedule::default());
    c.on_time_known(0, t(10, 0));
    c.on_ha_connected(0);
    c.on_ha_command(0, true, 0);
    c.on_ha_command(0, false, 25 * MIN);
    assert!(switched(&c.set_max_daily_min(0, 20, 25 * MIN)).is_empty());
    assert!(c.daily_capped()[0]);
    assert!(switched(&c.on_ha_command(0, true, 26 * MIN)).is_empty());
    assert!(switched(&c.on_local_command(0, true, 26 * MIN)).is_empty());
    assert!(!c.relays()[0]);
    // A larger budget does not lift the block before midnight, none does.
    c.set_max_daily_min(0, 600, 27 * MIN);
    assert!(switched(&c.on_ha_command(0, true, 27 * MIN)).is_empty());
    c.set_max_daily_min(0, 0, 28 * MIN);
    assert_eq!(switched(&c.on_ha_command(0, true, 28 * MIN)), vec![(0, true)]);
}

/// The link over a history of connects, messages and the grace time.
#[test]
fn the_link_follows_what_was_heard() {
    let mut c = Controller::new(Config::default(), Schedule::default());
    c.set_offline_grace_s(10, 0, None);
    c.on_ha_seen(0);
    assert_eq!(c.link(), Link::OfflineUnknownTime, "a message does not connect");
    c.on_ha_connected(1_000);
    assert_eq!(c.link(), Link::Online);
    c.tick(11_000, None);
    assert_eq!(c.link(), Link::OfflineUnknownTime);
    c.on_ha_seen(12_000);
    assert_eq!(c.link(), Link::Online);
    c.on_ha_offline(13_000, None);
    assert_eq!(c.link(), Link::OfflineUnknownTime);
    c.set_offline_grace_s(0, 14_000, None);
    assert_eq!(c.link(), Link::OfflineUnknownTime, "declared offline");
    c.on_ha_command(9, true, 15_000);
    c.tick(9_000_000, None);
    assert_eq!(c.link(), Link::Online, "no grace time, for ever");
    c.on_ha_disconnected(9_000_001, None);
    c.on_time_known(9_000_002, t(10, 0));
    assert_eq!(c.link(), Link::OfflineSchedule);
}
