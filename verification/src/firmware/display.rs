//! What Home Assistant is shown of the relays and of the safeguard.

use vstd::prelude::*;

use crate::api::entity;
use crate::api::entity::Reading;
use crate::api::server;
use crate::api::server::World;
use crate::api::session::Order;
use crate::arbiter;
use crate::arbiter::{Action, Arbiter, Step};
use crate::board::CHANNELS;
use crate::firmware::clock;
use crate::firmware::entities;
use crate::firmware::entities::Keys;
use crate::firmware::key_table;
use crate::firmware::machine;
use crate::firmware::machine::{Boot, Deed, Light, Machine, Moment, Signal};
use crate::firmware::number;
use crate::firmware::promises;
use crate::firmware::settings::Net;
use crate::reach;
use crate::rules;
use crate::rules::Input;
use crate::schedule::Schedule;
use crate::text;

verus! {

// ----- keys ------------------------------------------------------------------------------------------

/// The key is none of a relay's.
pub open spec fn apart(k: Keys, key: u32) -> bool {
    forall|i: int| 0 <= i < CHANNELS ==> #[trigger] k.relay@[i] != key
}

/// The relays have keys of their own.
pub open spec fn own_keys(k: Keys) -> bool {
    &&& forall|i: int, j: int|
        0 <= i < j < CHANNELS ==> #[trigger] k.relay@[i] != #[trigger] k.relay@[j]
    &&& forall|i: int| 0 <= i < CHANNELS ==> apart(k, #[trigger] k.max_on@[i])
    &&& forall|i: int| 0 <= i < CHANNELS ==> apart(k, #[trigger] k.tripped@[i])
    &&& forall|i: int| 0 <= i < CHANNELS ==> apart(k, #[trigger] k.safe_state@[i])
    &&& apart(k, k.mode)
    &&& apart(k, k.exclusive)
    &&& apart(k, k.link)
    &&& apart(k, k.local_time)
    &&& apart(k, k.schedule_loaded)
    &&& apart(k, k.schedule_rev)
    &&& apart(k, k.schedule_info)
    &&& apart(k, k.uptime)
    &&& apart(k, k.rssi)
    &&& apart(k, k.ota_status)
    &&& apart(k, k.buzzer)
    &&& apart(k, k.heap)
    &&& apart(k, k.heap_min)
    &&& apart(k, k.rain_hold_hours)
    &&& apart(k, k.rain_hold)
    &&& apart(k, k.reset_reason)
    &&& apart(k, k.last_crash)
    &&& forall|i: int| 0 <= i < CHANNELS ==> apart(k, #[trigger] k.max_daily@[i])
    &&& forall|i: int| 0 <= i < CHANNELS ==> apart(k, #[trigger] k.on_today@[i])
    &&& forall|i: int| 0 <= i < CHANNELS ==> apart(k, #[trigger] k.total_on@[i])
    &&& forall|i: int| 0 <= i < CHANNELS ==> apart(k, #[trigger] k.daily_limit@[i])
}

/// Where the relays stand among the planned entities.
proof fn lemma_relay_keys(k: Keys, i: int)
    requires
        entities::keyed(k),
        0 <= i < CHANNELS,
    ensures
        entities::plans().len() == 71,
        k.relay@[i] == entity::key_of(entities::plans()[4 * i].id),
        k.max_on@[i] == entity::key_of(entities::plans()[4 * i + 1].id),
        k.tripped@[i] == entity::key_of(entities::plans()[4 * i + 2].id),
        k.safe_state@[i] == entity::key_of(entities::plans()[4 * i + 3].id),
{
    key_table::lemma_relay_ids(CHANNELS as nat, i);
    key_table::lemma_planned_key(0);
    let d = text::decimal((i + 1) as nat);
    assert(k.relay@[i] == entity::key_of("relay_"@ + d));
}

/// What is planned elsewhere has other keys.
proof fn lemma_apart_at(k: Keys, j: int)
    requires
        entities::keyed(k),
        0 <= j < 71,
        j >= 24 || j % 4 != 0,
    ensures
        apart(k, entity::key_of(entities::plans()[j].id)),
{
    let p = entities::plans();
    key_table::law_entity_keys_differ();
    assert forall|i: int| 0 <= i < CHANNELS implies #[trigger] k.relay@[i] != entity::key_of(
        p[j].id,
    ) by {
        lemma_relay_keys(k, i);
        if 4 * i < j {
            assert(entity::key_of(p[4 * i].id) != entity::key_of(p[j].id));
        } else {
            assert(entity::key_of(p[j].id) != entity::key_of(p[4 * i].id));
        }
    }
}

proof fn lemma_apart_on_board(k: Keys, j: int)
    requires
        entities::keyed(k),
        0 <= j < 21,
    ensures
        apart(k, entity::key_of(entities::board_plans()[j].id)),
{
    lemma_apart_at(k, 24 + j);
    key_table::lemma_relay_ids(CHANNELS as nat, 0);
    assert(entities::plans()[24 + j] == entities::board_plans()[j]);
}

/// The keys of the daily entities are none of a relay's.
proof fn lemma_daily_keys(k: Keys, i: int)
    requires
        entities::keyed(k),
        0 <= i < CHANNELS,
    ensures
        apart(k, k.max_daily@[i]),
        apart(k, k.on_today@[i]),
        apart(k, k.total_on@[i]),
        apart(k, k.daily_limit@[i]),
{
    let d = text::decimal((i + 1) as nat);
    assert(k.relay@[i] == entity::key_of("relay_"@ + d));
    key_table::lemma_daily_keys((i + 1) as nat);
    lemma_apart_key(k, k.max_daily@[i], 45 + 4 * i);
    lemma_apart_key(k, k.on_today@[i], 45 + 4 * i + 1);
    lemma_apart_key(k, k.total_on@[i], 45 + 4 * i + 2);
    lemma_apart_key(k, k.daily_limit@[i], 45 + 4 * i + 3);
}

/// A key from the later part of the table is none of a relay's.
proof fn lemma_apart_key(k: Keys, key: u32, x: int)
    requires
        entities::keyed(k),
        24 <= x < 71,
        key == key_table::key_table()[x],
    ensures
        apart(k, key),
{
    assert forall|i: int| 0 <= i < CHANNELS implies #[trigger] k.relay@[i] != key by {
        let d = text::decimal((i + 1) as nat);
        assert(k.relay@[i] == entity::key_of("relay_"@ + d));
        key_table::lemma_relay_keys((i + 1) as nat);
        key_table::lemma_table_differs(4 * i, x);
    }
}

/// As registered, the relays have keys of their own.
pub proof fn lemma_own_keys(k: Keys)
    requires
        entities::keyed(k),
    ensures
        own_keys(k),
{
    let p = entities::plans();
    key_table::law_entity_keys_differ();
    key_table::lemma_board_ids();
    lemma_apart_on_board(k, 0);
    lemma_apart_on_board(k, 1);
    lemma_apart_on_board(k, 2);
    lemma_apart_on_board(k, 3);
    lemma_apart_on_board(k, 4);
    lemma_apart_on_board(k, 5);
    lemma_apart_on_board(k, 6);
    lemma_apart_on_board(k, 7);
    lemma_apart_on_board(k, 8);
    lemma_apart_on_board(k, 14);
    lemma_apart_on_board(k, 15);
    lemma_apart_on_board(k, 16);
    lemma_apart_on_board(k, 17);
    lemma_apart_on_board(k, 18);
    lemma_apart_on_board(k, 19);
    lemma_apart_on_board(k, 20);
    lemma_apart_at(k, 69);
    key_table::lemma_relay_ids(CHANNELS as nat, 0);
    key_table::lemma_daily_ids(CHANNELS as nat, 0);
    assert(p[69] == entities::crash_plans()[0]);
    assert forall|i: int| 0 <= i < CHANNELS implies apart(k, #[trigger] k.max_daily@[i]) by {
        lemma_daily_keys(k, i);
    }
    assert forall|i: int| 0 <= i < CHANNELS implies apart(k, #[trigger] k.on_today@[i]) by {
        lemma_daily_keys(k, i);
    }
    assert forall|i: int| 0 <= i < CHANNELS implies apart(k, #[trigger] k.total_on@[i]) by {
        lemma_daily_keys(k, i);
    }
    assert forall|i: int| 0 <= i < CHANNELS implies apart(k, #[trigger] k.daily_limit@[i]) by {
        lemma_daily_keys(k, i);
    }
    assert forall|i: int, j: int| 0 <= i < j < CHANNELS implies #[trigger] k.relay@[i]
        != #[trigger] k.relay@[j] by {
        lemma_relay_keys(k, i);
        lemma_relay_keys(k, j);
        assert(entity::key_of(p[4 * i].id) != entity::key_of(p[4 * j].id));
    }
    assert forall|i: int| 0 <= i < CHANNELS implies apart(k, #[trigger] k.max_on@[i]) by {
        lemma_relay_keys(k, i);
        lemma_apart_at(k, 4 * i + 1);
    }
    assert forall|i: int| 0 <= i < CHANNELS implies apart(k, #[trigger] k.tripped@[i]) by {
        lemma_relay_keys(k, i);
        lemma_apart_at(k, 4 * i + 2);
    }
    assert forall|i: int| 0 <= i < CHANNELS implies apart(k, #[trigger] k.safe_state@[i]) by {
        lemma_relay_keys(k, i);
        lemma_apart_at(k, 4 * i + 3);
    }
}

// ----- states ----------------------------------------------------------------------------------------

/// Home Assistant is shown these states of the relays.
#[verifier::opaque]
pub open spec fn shows(m: Machine, v: Seq<bool>) -> bool {
    &&& server::ascending(m.world.states)
    &&& forall|i: int|
        0 <= i < CHANNELS ==> server::lookup(m.world.states, #[trigger] m.keys.relay@[i]) == Some(
            Reading::Bool(v[i]),
        )
}

broadcast proof fn lemma_shows_does(m: Machine, d: Deed, v: Seq<bool>)
    ensures
        #[trigger] shows(m.does(d), v) == shows(m, v),
{
    reveal(shows);
}

proof fn lemma_shows_publishes(m: Machine, key: u32, r: Reading, v: Seq<bool>)
    requires
        shows(m, v),
        apart(m.keys, key),
    ensures
        shows(m.publishes(key, r), v),
{
    reveal(shows);
    server::law_states_stay_in_order(m.world.states, key, r);
    assert forall|i: int| 0 <= i < CHANNELS implies server::lookup(
        server::recorded(m.world.states, key, r),
        #[trigger] m.keys.relay@[i],
    ) == Some(Reading::Bool(v[i])) by {
        server::law_recorded_states_are_found(m.world.states, key, r, m.keys.relay@[i]);
    }
}

broadcast proof fn lemma_shows_sets(m: Machine, key: u32, r: Reading, v: Seq<bool>)
    requires
        shows(m, v),
        apart(m.keys, key),
    ensures
        #[trigger] shows(m.sets(key, r), v),
{
    reveal(Machine::sets);
    lemma_shows_publishes(m, key, r, v);
}

/// Only keys and states matter.
proof fn lemma_shows_same(m: Machine, n: Machine, v: Seq<bool>)
    requires
        shows(m, v),
        n.world.states == m.world.states,
        n.keys == m.keys,
    ensures
        shows(n, v),
{
    reveal(shows);
}

/// The state of a relay is recorded.
proof fn lemma_shows_relay(m: Machine, ch: int, on: bool, v: Seq<bool>)
    requires
        shows(m, v),
        own_keys(m.keys),
        0 <= ch < CHANNELS,
        v.len() == CHANNELS,
    ensures
        shows(m.publishes(m.keys.relay@[ch], Reading::Bool(on)), v.update(ch, on)),
        shows(m.sets(m.keys.relay@[ch], Reading::Bool(on)), v.update(ch, on)),
{
    reveal(shows);
    reveal(Machine::sets);
    let key = m.keys.relay@[ch];
    let r = Reading::Bool(on);
    server::law_states_stay_in_order(m.world.states, key, r);
    assert forall|i: int| 0 <= i < CHANNELS implies server::lookup(
        server::recorded(m.world.states, key, r),
        #[trigger] m.keys.relay@[i],
    ) == Some(Reading::Bool(v.update(ch, on)[i])) by {
        server::law_recorded_states_are_found(m.world.states, key, r, m.keys.relay@[i]);
    }
}

proof fn lemma_shows_acts(m: Machine, a: Action, v: Seq<bool>)
    requires
        shows(m, v),
        own_keys(m.keys),
        v.len() == CHANNELS,
        a matches Action::SetRelay { ch, on } ==> ch < CHANNELS,
    ensures
        shows(m.acts(a), rules::applied(v, a)),
{
    broadcast use {machine::lemma_sets, lemma_shows_does, lemma_shows_sets};

    match a {
        Action::SetRelay { ch, on } => {
            let c = ch as int;
            let m1 = m.does(Deed::Relay { ch, on });
            lemma_shows_relay(m1, c, on, v);
            let m2 = m1.sets(m.keys.relay@[c], Reading::Bool(on));
            let m3 = Machine { tripped: m2.tripped.update(c, false), ..m2 };
            lemma_shows_same(m2, m3, v.update(c, on));
            assert(apart(m.keys, m.keys.tripped@[c]));
        },
        Action::SafeguardTripped { ch } => {
            if ch < CHANNELS {
                let c = ch as int;
                let m1 = m.does(Deed::Play(crate::firmware::buzzer::Tone::Safeguard));
                let m2 = Machine { tripped: m1.tripped.update(c, true), ..m1 };
                lemma_shows_same(m1, m2, v);
                assert(apart(m.keys, m.keys.tripped@[c]));
            }
        },
        Action::DailyUsage { ch, minutes, total_minutes } => {
            if ch < CHANNELS {
                let c = ch as int;
                assert(apart(m.keys, m.keys.on_today@[c]));
                assert(apart(m.keys, m.keys.total_on@[c]));
                assert(apart(m.keys, m.keys.daily_limit@[c]));
            }
        },
        Action::DailyCapReached { ch } => {
            if ch < CHANNELS {
                assert(apart(m.keys, m.keys.daily_limit@[ch as int]));
            }
        },
        _ => {},
    }
}

proof fn lemma_on_board_before(actions: Seq<Action>)
    requires
        reach::on_board(actions),
        actions.len() > 0,
    ensures
        reach::on_board(actions.drop_last()),
{
    let rest = actions.drop_last();
    assert forall|i: int| 0 <= i < rest.len() implies match #[trigger] rest[i] {
        Action::SetRelay { ch, on } => ch < CHANNELS,
        _ => true,
    } by {
        assert(rest[i] == actions[i]);
    }
}

proof fn lemma_shows_applies(m: Machine, actions: Seq<Action>, v: Seq<bool>)
    requires
        shows(m, v),
        own_keys(m.keys),
        m.tripped.len() == CHANNELS,
        v.len() == CHANNELS,
        reach::on_board(actions),
    ensures
        shows(m.applies(actions), rules::replay(v, actions)),
        rules::replay(v, actions).len() == CHANNELS,
    decreases actions.len(),
{
    if actions.len() > 0 {
        let rest = actions.drop_last();
        lemma_on_board_before(actions);
        lemma_shows_applies(m, rest, v);
        machine::lemma_applies_keeps(m, rest);
        assert(actions.last() == actions[actions.len() - 1]);
        lemma_shows_acts(m.applies(rest), actions.last(), rules::replay(v, rest));
    }
}

/// The controller's step is carried out on what is shown.
proof fn lemma_step_shown(m: Machine, base: Machine, s: Step)
    requires
        shows(base, m.ctl.relays),
        own_keys(m.keys),
        base.keys == m.keys,
        base.ctl == s.after,
        base.tripped.len() == CHANNELS,
        m.ctl.obeys(),
        promises::well_told(m.ctl, s, false),
    ensures
        shows(base.applies(s.actions), base.applies(s.actions).ctl.relays),
{
    lemma_shows_applies(base, s.actions, m.ctl.relays);
    machine::lemma_applies_keeps(base, s.actions);
}

/// What the actions make of a relay does not depend on how it was, or is how it was.
proof fn lemma_replay_apart(v: Seq<bool>, w: Seq<bool>, actions: Seq<Action>, i: int)
    requires
        v.len() == CHANNELS,
        w.len() == CHANNELS,
        0 <= i < CHANNELS,
        reach::on_board(actions),
    ensures
        rules::replay(v, actions).len() == CHANNELS,
        rules::replay(w, actions).len() == CHANNELS,
        rules::replay(v, actions)[i] == rules::replay(w, actions)[i] || (rules::replay(
            v,
            actions,
        )[i] == v[i] && rules::replay(w, actions)[i] == w[i]),
    decreases actions.len(),
{
    if actions.len() > 0 {
        lemma_on_board_before(actions);
        lemma_replay_apart(v, w, actions.drop_last(), i);
        assert(actions.last() == actions[actions.len() - 1]);
    }
}

/// What is shown is right after the reaction.
spec fn right(n: Machine) -> bool {
    shows(n, n.ctl.relays)
}

/// What every reaction starts from.
pub open spec fn sound(m: Machine) -> bool {
    &&& m.wf()
    &&& m.ctl.obeys()
    &&& own_keys(m.keys)
    &&& shows(m, m.ctl.relays)
}

proof fn lemma_tick_shown(m: Machine, at: Moment)
    requires
        sound(m),
        !m.restart_due(at),
    ensures
        right(m.ticked(at)),
{
    broadcast use {machine::lemma_sets, lemma_shows_does, lemma_shows_sets};

    reveal(Machine::ticked);
    let v = m.ctl.relays;
    let s = m.tick_step(at);
    promises::lemma_tick_told(m, at);
    let m0 = Machine {
        ticks: machine::one_more(m.ticks),
        time_known: m.time_known || clock::valid(at.secs),
        ctl: s.after,
        ..m
    };
    lemma_shows_same(m, m0, v);
    let m1 = m0.reports_health(at);
    assert(shows(m1, v) && m1.same_but_said(m0)) by {
        reveal(Machine::reports_health);
        let up = number::float_of((at.now / 1000) as nat) as u32;
        lemma_shows_publishes(m0, m0.keys.uptime, Reading::Float(up), v);
    }
    let m2 = m1.confirms();
    assert(shows(m2, v) && m2.keeps(m1) && m2.restart_at == m.restart_at) by {
        reveal(Machine::confirms);
        lemma_shows_same(m1, Machine { confirmed: true, ..m1 }, v);
    }
    let m3 = m2.opens_portal(at);
    assert(shows(m3, v) && m3.keeps(m1) && m3.restart_at == m.restart_at) by {
        reveal(Machine::opens_portal);
        lemma_shows_same(m2, Machine { ap_active: true, portal_since: Some(at.now), ..m2 }, v);
    }
    let m4 = m3.closes_portal(at);
    assert(shows(m4, v) && m4.keeps(m1) && m4.restart_at == m.restart_at) by {
        reveal(Machine::closes_portal);
        lemma_shows_same(m3, Machine { ap_active: false, portal_since: None, ..m3 }, v);
    }
    lemma_step_shown(m, m4, s);
}

proof fn lemma_configures_shown(m: Machine, s: Step, key: u32, shown: Reading)
    requires
        sound(m),
        promises::well_told(m.ctl, s, false),
        apart(m.keys, key),
    ensures
        right(m.configures(s, key, shown)),
{
    broadcast use {machine::lemma_sets, lemma_shows_does, lemma_shows_sets};

    reveal(Machine::configures);
    lemma_shows_same(m, m.with_ctl(s.after), m.ctl.relays);
    let base = m.with_ctl(s.after).does(Deed::SaveConfig).sets(key, shown);
    lemma_step_shown(m, base, s);
}

/// A channel that a key stands for has that key.
pub proof fn lemma_channel(keys: Seq<u32>, key: u32, i: nat)
    ensures
        entities::first_from(keys, key, i) matches Some(ch) ==> ch < keys.len() && keys[ch as int]
            == key,
    decreases keys.len() - i,
{
    if i < keys.len() && keys[i as int] != key {
        lemma_channel(keys, key, i + 1);
    }
}

proof fn lemma_relay_shown(m: Machine, ch: nat, key: u32, on: bool, at: Moment)
    requires
        sound(m),
        ch < CHANNELS,
        m.keys.relay@[ch as int] == key,
    ensures
        right(m.relay_switched(ch, key, on, at)),
{
    reveal(Machine::relay_switched);
    let input = Input::HaCommand { ch: ch as usize, on, now: at.now };
    promises::lemma_input_told(m.ctl, input);
    let s = m.ctl.taken(input);
    let c = ch as int;
    let v = m.ctl.relays;
    let actual = s.after.relays[c];
    let w = v.update(c, actual);
    lemma_shows_same(m, m.with_ctl(s.after), v);
    lemma_shows_relay(m.with_ctl(s.after), c, actual, v);
    let base = m.with_ctl(s.after).publishes(key, Reading::Bool(actual));
    lemma_shows_applies(base, s.actions, w);
    machine::lemma_applies_keeps(base, s.actions);
    assert forall|i: int| 0 <= i < CHANNELS implies rules::replay(w, s.actions)[i]
        == s.after.relays[i] by {
        lemma_replay_apart(v, w, s.actions, i);
    }
    assert(rules::replay(w, s.actions) =~= s.after.relays);
}

proof fn lemma_switch_shown(m: Machine, key: u32, on: bool, at: Moment)
    requires
        sound(m),
    ensures
        right(m.switched(key, on, at)),
{
    broadcast use {machine::lemma_sets, lemma_shows_does, lemma_shows_sets};

    reveal(Machine::switched);
    let v = m.ctl.relays;
    lemma_channel(m.keys.relay@, key, 0);
    lemma_channel(m.keys.safe_state@, key, 0);
    if key == m.keys.buzzer {
        reveal(Machine::buzzer_switched);
        lemma_shows_same(m, m.with_ctl(m.ctl.with_buzzer(on)), v);
    } else if key == m.keys.exclusive {
        promises::lemma_input_told(m.ctl, Input::SetExclusive { on, now: at.now });
        lemma_configures_shown(m, m.ctl.with_exclusive(on), key, Reading::Bool(on));
    } else if let Some(ch) = entities::channel(m.keys.relay@, key) {
        lemma_relay_shown(m, ch, key, on, at);
    } else if let Some(ch) = entities::channel(m.keys.safe_state@, key) {
        let input = Input::SetSafeState { ch: ch as usize, on, now: at.now };
        promises::lemma_input_told(m.ctl, input);
        assert(apart(m.keys, m.keys.safe_state@[ch as int]));
        lemma_configures_shown(m, m.ctl.taken(input), key, Reading::Bool(on));
    }
}

proof fn lemma_number_shown(m: Machine, key: u32, bits: u32, at: Moment)
    requires
        sound(m),
    ensures
        right(m.number_set(key, bits, at)),
{
    broadcast use {machine::lemma_sets, lemma_shows_sets};

    reveal(Machine::number_set);
    lemma_channel(m.keys.max_on@, key, 0);
    lemma_channel(m.keys.max_daily@, key, 0);
    if let Some(ch) = entities::channel(m.keys.max_on@, key) {
        let minutes = number::whole(bits, 1440) as u16;
        let input = Input::SetMaxOn { ch: ch as usize, minutes, now: at.now };
        promises::lemma_input_told(m.ctl, input);
        assert(apart(m.keys, m.keys.max_on@[ch as int]));
        let shown = Reading::Float(number::float_of(minutes as nat) as u32);
        lemma_configures_shown(m, m.ctl.taken(input), key, shown);
    } else if let Some(ch) = entities::channel(m.keys.max_daily@, key) {
        let minutes = number::whole(bits, 1440) as u16;
        let input = Input::SetMaxDaily { ch: ch as usize, minutes, now: at.now };
        promises::lemma_input_told(m.ctl, input);
        assert(apart(m.keys, m.keys.max_daily@[ch as int]));
        assert(apart(m.keys, m.keys.daily_limit@[ch as int]));
        let shown = Reading::Float(number::float_of(minutes as nat) as u32);
        lemma_configures_shown(m, m.ctl.taken(input), key, shown);
        machine::lemma_configures_keys(m, m.ctl.taken(input), key, shown);
    } else if key == m.keys.rain_hold_hours {
        let hours = number::whole(bits, 72) as u32;
        promises::lemma_input_told(m.ctl, Input::SetEpoch { epoch: at.epoch() });
        let b = m.ctl.with_epoch(at.epoch());
        let input = Input::SetRainHold { hours, now: at.now, local: at.local() };
        promises::lemma_input_told(b, input);
        let s = b.taken(input);
        let shown = if s.after.cfg.rain_hold_until > 0 {
            hours
        } else {
            0
        };
        lemma_configures_shown(
            m,
            s,
            key,
            Reading::Float(number::float_of(shown as nat) as u32),
        );
        machine::lemma_configures_keys(
            m,
            s,
            key,
            Reading::Float(number::float_of(shown as nat) as u32),
        );
    }
}

proof fn lemma_follow_shown(m: Machine, s: Schedule, at: Moment)
    requires
        sound(m),
    ensures
        right(m.follows(s, at)),
{
    broadcast use {machine::lemma_sets, lemma_shows_does, lemma_shows_sets};

    reveal(Machine::follows);
    let input = Input::SetSchedule { schedule: s, now: at.now, local: at.local() };
    promises::lemma_input_told(m.ctl, input);
    let step = m.ctl.taken(input);
    lemma_shows_same(m, m.with_ctl(step.after), m.ctl.relays);
    let base = m.with_ctl(step.after).does(Deed::SaveSchedule).says_schedule(s, None);
    lemma_step_shown(m, base, step);
}

proof fn lemma_clients_shown(m: Machine, at: Moment)
    requires
        sound(m),
    ensures
        right(m.subscribed(at)),
        right(m.client_gone(at)),
{
    broadcast use {machine::lemma_sets, lemma_shows_does};

    reveal(Machine::subscribed);
    reveal(Machine::client_gone);
    let v = m.ctl.relays;
    let up = Machine {
        clients: if m.clients == usize::MAX {
            m.clients
        } else {
            (m.clients + 1) as usize
        },
        ..m
    };
    let s = if up.clients == 1 {
        m.ctl.connected(at.now).refresh(at.now, None)
    } else {
        arbiter::stay(m.ctl)
    };
    promises::lemma_input_told(m.ctl, Input::HaConnected { now: at.now });
    promises::lemma_stay_told(m.ctl);
    let lit = if up.ap_active {
        up
    } else {
        up.does(Deed::Light(Light::Online))
    };
    lemma_shows_same(m, lit.with_ctl(s.after), v);
    lemma_step_shown(m, lit.with_ctl(s.after), s);
    let down = Machine {
        clients: if m.clients == 0 {
            0
        } else {
            (m.clients - 1) as usize
        },
        ..m
    };
    lemma_shows_same(m, down, v);
    let input = Input::HaDisconnected { now: at.now, local: at.local() };
    promises::lemma_input_told(m.ctl, input);
    let t = m.ctl.taken(input);
    let dark = if down.ap_active {
        down
    } else {
        down.does(
            Deed::Light(
                if down.wifi_up {
                    Light::WifiNoHa
                } else {
                    Light::NoWifi
                },
            ),
        )
    };
    lemma_shows_same(m, dark.with_ctl(t.after), v);
    lemma_step_shown(m, dark.with_ctl(t.after), t);
}

proof fn lemma_ordered_shown(m: Machine, o: Order, at: Moment, empty: Schedule)
    requires
        sound(m),
    ensures
        right(m.ordered(o, at, empty)),
{
    broadcast use {machine::lemma_sets, lemma_shows_does, lemma_shows_sets};

    let v = m.ctl.relays;
    match o {
        Order::ClientSubscribed { client_info } => {
            lemma_clients_shown(m, at);
        },
        Order::ClientGone { subscribed } => {
            lemma_clients_shown(m, at);
        },
        Order::Switch { key, on } => {
            lemma_switch_shown(m, key, on, at);
        },
        Order::Number { key, value } => {
            lemma_number_shown(m, key, value, at);
        },
        Order::Select { key, option } => {
            reveal(Machine::selected);
            if let Some(mode) = entities::option_mode(option) {
                if key == m.keys.mode {
                    let input = Input::SetMode { mode, now: at.now, local: at.local() };
                    promises::lemma_input_told(m.ctl, input);
                    let shown = Reading::Text(entities::label(mode));
                    lemma_configures_shown(m, m.ctl.taken(input), key, shown);
                }
            }
        },
        Order::Button { key } => {
            if key == m.keys.all_off {
                promises::lemma_input_told(m.ctl, Input::AllOff { now: at.now });
                let t = m.ctl.drop_to(arbiter::all_false());
                lemma_shows_same(m, m.with_ctl(t.after), v);
                lemma_step_shown(m, m.with_ctl(t.after), t);
            }
        },
        Order::Service { key, args } => {
            reveal(Machine::service);
            if key == m.keys.clear_schedule && key != m.keys.set_schedule {
                lemma_follow_shown(m, empty, at);
            } else {
                lemma_shows_same(m, m.service(key, args, at, empty), v);
            }
        },
        Order::Time { epoch_seconds, timezone } => {
            lemma_shows_same(m, m.ordered(o, at, empty), v);
        },
    }
}

/// Home Assistant sees the relays as they are: what it has been shown of them agrees with the
/// controller after every reaction, if it did before. (A device that restarts says nothing more.)
pub proof fn law_ha_sees_the_relays_as_they_are(
    m: Machine,
    s: Signal,
    at: Moment,
    empty: Schedule,
)
    requires
        m.wf(),
        m.ctl.obeys(),
        entities::keyed(m.keys),
        shows(m, m.ctl.relays),
        !(s is Tick && m.restart_due(at)),
    ensures
        shows(m.reacts(s, at, empty), m.reacts(s, at, empty).ctl.relays),
{
    broadcast use {machine::lemma_sets, lemma_shows_does, lemma_shows_sets};

    lemma_own_keys(m.keys);
    let v = m.ctl.relays;
    let n = m.reacts(s, at, empty);
    match s {
        Signal::Tick => {
            lemma_tick_shown(m, at);
        },
        Signal::Rssi(x) => {
            let r = Reading::Float(number::signed_float_of(x as int) as u32);
            lemma_shows_publishes(m, m.keys.rssi, r, v);
        },
        Signal::Api(o) => {
            lemma_ordered_shown(m, o, at, empty);
        },
        Signal::Schedule(Ok(x)) => {
            lemma_follow_shown(m, x, at);
        },
        Signal::Schedule(Err(e)) => {},
        Signal::OtaStatus(t) => {},
        Signal::TimeSet => {
            reveal(Machine::learns_time);
            let told = m.sets(m.keys.local_time, Reading::Text(clock::shown(at.local())));
            let k = Machine { time_known: true, ..told };
            lemma_shows_same(told, k, v);
            if !m.time_known && at.local() is Some {
                let input = Input::TimeKnown { now: at.now, at: at.local()->0 };
                promises::lemma_input_told(m.ctl, input);
                let t = m.ctl.taken(input);
                lemma_shows_same(k, k.with_ctl(t.after), v);
                lemma_step_shown(m, k.with_ctl(t.after), t);
            }
        },
        _ => {
            lemma_shows_same(m, n, v);
        },
    }
}

/// Home Assistant is shown these states of the first `n` relays.
#[verifier::opaque]
spec fn shows_first(m: Machine, v: Seq<bool>, n: nat) -> bool {
    &&& server::ascending(m.world.states)
    &&& forall|i: int|
        0 <= i < n ==> server::lookup(m.world.states, #[trigger] m.keys.relay@[i]) == Some(
            Reading::Bool(v[i]),
        )
}

proof fn lemma_first_sets(m: Machine, key: u32, r: Reading, v: Seq<bool>, n: nat)
    requires
        shows_first(m, v, n),
        apart(m.keys, key),
        n <= CHANNELS,
    ensures
        shows_first(m.sets(key, r), v, n),
{
    reveal(shows_first);
    reveal(Machine::sets);
    server::law_states_stay_in_order(m.world.states, key, r);
    assert forall|i: int| 0 <= i < n implies server::lookup(
        server::recorded(m.world.states, key, r),
        #[trigger] m.keys.relay@[i],
    ) == Some(Reading::Bool(v[i])) by {
        server::law_recorded_states_are_found(m.world.states, key, r, m.keys.relay@[i]);
    }
}

proof fn lemma_relays_said(m: Machine, n: nat)
    requires
        own_keys(m.keys),
        server::ascending(m.world.states),
        n <= CHANNELS,
    ensures
        shows_first(m.says_relays(n), m.ctl.relays, n),
        m.says_relays(n).same_but_said(m),
    decreases n,
{
    broadcast use machine::lemma_sets;

    if n == 0 {
        reveal(shows_first);
    } else {
        let c = n - 1;
        let (k, v) = (m.keys, m.ctl.relays);
        lemma_relays_said(m, (n - 1) as nat);
        let b = m.says_relays((n - 1) as nat);
        let r = Reading::Bool(v[c]);
        let b1 = b.sets(k.relay@[c], r);
        assert(shows_first(b1, v, n)) by {
            reveal(shows_first);
            reveal(Machine::sets);
            server::law_states_stay_in_order(b.world.states, k.relay@[c], r);
            assert forall|i: int| 0 <= i < n implies server::lookup(
                b1.world.states,
                #[trigger] b1.keys.relay@[i],
            ) == Some(Reading::Bool(v[i])) by {
                server::law_recorded_states_are_found(
                    b.world.states,
                    k.relay@[c],
                    r,
                    k.relay@[i],
                );
            }
        }
        let limit = Reading::Float(
            number::float_of(m.ctl.cfg.channels[c].max_on_min as nat) as u32,
        );
        assert(apart(k, k.max_on@[c]) && apart(k, k.tripped@[c]) && apart(k, k.safe_state@[c]));
        lemma_first_sets(b1, k.max_on@[c], limit, v, n);
        let b2 = b1.sets(k.max_on@[c], limit);
        lemma_first_sets(b2, k.tripped@[c], Reading::Bool(false), v, n);
        let b3 = b2.sets(k.tripped@[c], Reading::Bool(false));
        lemma_first_sets(
            b3,
            k.safe_state@[c],
            Reading::Bool(m.ctl.cfg.channels[c].safe_state),
            v,
            n,
        );
        let b4 = b3.sets(k.safe_state@[c], Reading::Bool(m.ctl.cfg.channels[c].safe_state));
        assert(apart(k, k.max_daily@[c]) && apart(k, k.on_today@[c]) && apart(k, k.total_on@[c])
            && apart(k, k.daily_limit@[c]));
        let budget = Reading::Float(
            number::float_of(m.ctl.cfg.channels[c].max_daily_min as nat) as u32,
        );
        lemma_first_sets(b4, k.max_daily@[c], budget, v, n);
        let b5 = b4.sets(k.max_daily@[c], budget);
        let today = Reading::Float(
            number::float_of(arbiter::minutes(m.ctl.on_today_ms[c]) as nat) as u32,
        );
        lemma_first_sets(b5, k.on_today@[c], today, v, n);
        let b6 = b5.sets(k.on_today@[c], today);
        let total = Reading::Float(
            number::float_of(arbiter::minutes(m.ctl.total_ms[c]) as nat) as u32,
        );
        lemma_first_sets(b6, k.total_on@[c], total, v, n);
        let b7 = b6.sets(k.total_on@[c], total);
        lemma_first_sets(b7, k.daily_limit@[c], Reading::Bool(m.ctl.capped[c]), v, n);
    }
}

/// When the device has started, Home Assistant sees the relays as they are.
pub proof fn law_ha_sees_the_relays_from_the_start(
    ctl: Arbiter,
    world: World,
    keys: Keys,
    tz: Seq<char>,
    net: Net,
    boot: Boot,
    at: Moment,
)
    requires
        server::ascending(world.states),
        entities::keyed(keys),
    ensures
        shows(machine::started(ctl, world, keys, tz, net, boot, at), ctl.relays),
{
    broadcast use {machine::lemma_sets, lemma_shows_does, lemma_shows_sets};

    lemma_own_keys(keys);
    let m = machine::fresh(ctl, world, keys, tz, net, at);
    lemma_relays_said(m, CHANNELS as nat);
    let n = m.says_relays(CHANNELS as nat);
    assert(shows(n, ctl.relays)) by {
        reveal(shows);
        reveal(shows_first);
    }
}

/// The alarm shows a trip of the safeguard, and clears when the relay is switched on again.
pub proof fn law_the_alarm_follows_the_safeguard(m: Machine, ch: usize)
    requires
        server::ascending(m.world.states),
        m.tripped.len() == CHANNELS,
        ch < CHANNELS,
    ensures
        ({
            let n = m.acts(Action::SafeguardTripped { ch });
            &&& n.tripped[ch as int]
            &&& server::lookup(n.world.states, m.keys.tripped@[ch as int]) == Some(
                Reading::Bool(true),
            )
        }),
        ({
            let n = m.acts(Action::SetRelay { ch, on: true });
            &&& !n.tripped[ch as int]
            &&& m.tripped[ch as int] ==> server::lookup(
                n.world.states,
                m.keys.tripped@[ch as int],
            ) == Some(Reading::Bool(false))
        }),
{
    reveal(Machine::sets);
    let c = ch as int;
    let (alarm, relay) = (m.keys.tripped@[c], m.keys.relay@[c]);
    let states = m.world.states;
    server::law_recorded_states_are_found(states, alarm, Reading::Bool(true), alarm);
    let on = Reading::Bool(true);
    server::law_states_stay_in_order(states, relay, on);
    server::law_recorded_states_are_found(states, alarm, Reading::Bool(false), alarm);
    server::law_recorded_states_are_found(
        server::recorded(states, relay, on),
        alarm,
        Reading::Bool(false),
        alarm,
    );
}

/// The sensor of a relay's daily limit shows whether the relay is blocked: when it reaches its
/// budget, when its on-time is told (as it is of every relay at local midnight), and when its budget
/// is set.
pub proof fn law_the_limit_sensor_follows_the_block(
    m: Machine,
    ch: usize,
    minutes: u32,
    total: u32,
    key: u32,
    budget: u16,
    at: Moment,
)
    requires
        server::ascending(m.world.states),
        m.tripped.len() == CHANNELS,
        ch < CHANNELS,
    ensures
        limit_shown(m.acts(Action::DailyCapReached { ch }), ch),
        limit_shown(m.acts(Action::DailyUsage { ch, minutes, total_minutes: total }), ch),
        limit_shown(m.budget_set(ch as nat, key, budget, at), ch),
{
    broadcast use machine::lemma_sets;

    lemma_limit_said(m, ch);
    let k = m.keys;
    let c = ch as int;
    let saved = m.does(Deed::SaveUsage);
    let today = Reading::Float(number::float_of(minutes as nat) as u32);
    let sum = Reading::Float(number::float_of(total as nat) as u32);
    lemma_ascending_sets(saved, k.on_today@[c], today);
    lemma_ascending_sets(saved.sets(k.on_today@[c], today), k.total_on@[c], sum);
    lemma_limit_said(saved.sets(k.on_today@[c], today).sets(k.total_on@[c], sum), ch);
    let t = m.ctl.with_daily_cap(ch, budget).account(at.now, None);
    let shown = Reading::Float(number::float_of(budget as nat) as u32);
    let b = m.with_ctl(t.after).does(Deed::SaveConfig);
    lemma_ascending_sets(b, key, shown);
    lemma_ascending_applies(b.sets(key, shown), t.actions);
    reveal(Machine::configures);
    lemma_limit_said(m.configures(t, key, shown), ch);
}

proof fn lemma_ascending_applies(m: Machine, actions: Seq<Action>)
    requires
        server::ascending(m.world.states),
    ensures
        server::ascending(m.applies(actions).world.states),
    decreases actions.len(),
{
    if actions.len() > 0 {
        lemma_ascending_applies(m, actions.drop_last());
        lemma_ascending_acts(m.applies(actions.drop_last()), actions.last());
    }
}

proof fn lemma_ascending_acts(m: Machine, a: Action)
    requires
        server::ascending(m.world.states),
    ensures
        server::ascending(m.acts(a).world.states),
{
    broadcast use {machine::lemma_sets, lemma_ascending_set};

    match a {
        Action::SetRelay { ch, on } => {
            let x = m.does(Deed::Relay { ch, on });
            let y = x.sets(m.keys.relay@[ch as int], Reading::Bool(on));
            let z = Machine { tripped: y.tripped.update(ch as int, false), ..y };
            assert(server::ascending(z.world.states));
        },
        Action::SafeguardTripped { ch } => {
            let x = m.does(Deed::Play(crate::firmware::buzzer::Tone::Safeguard));
            let y = Machine { tripped: x.tripped.update(ch as int, true), ..x };
            assert(server::ascending(y.world.states));
        },
        _ => {},
    }
}

broadcast proof fn lemma_ascending_set(m: Machine, key: u32, r: Reading)
    requires
        server::ascending(m.world.states),
    ensures
        #[trigger] server::ascending(m.sets(key, r).world.states),
{
    lemma_ascending_sets(m, key, r);
}

/// The sensor of the relay's daily limit shows whether it is blocked.
pub open spec fn limit_shown(m: Machine, ch: usize) -> bool {
    server::lookup(m.world.states, m.keys.daily_limit@[ch as int]) == Some(
        Reading::Bool(m.ctl.capped[ch as int]),
    )
}

proof fn lemma_ascending_sets(m: Machine, key: u32, r: Reading)
    requires
        server::ascending(m.world.states),
    ensures
        server::ascending(m.sets(key, r).world.states),
{
    reveal(Machine::sets);
    server::law_states_stay_in_order(m.world.states, key, r);
}

proof fn lemma_limit_said(m: Machine, ch: usize)
    requires
        server::ascending(m.world.states),
        ch < CHANNELS,
    ensures
        limit_shown(m.says_block(ch), ch),
{
    reveal(Machine::sets);
    let key = m.keys.daily_limit@[ch as int];
    let r = Reading::Bool(m.ctl.capped[ch as int]);
    server::law_recorded_states_are_found(m.world.states, key, r, key);
}

} // verus!
