//! What holds of the main loop whatever it reacts to.

use vstd::prelude::*;

use crate::api::entity::Reading;
use crate::api::session::Order;
use crate::arbiter;
use crate::arbiter::{Action, Arbiter, Step};
use crate::board::CHANNELS;
use crate::firmware::clock;
use crate::firmware::entities;
use crate::firmware::machine;
use crate::firmware::machine::{
    Deed, Light, Machine, Moment, Signal, PORTAL_AFTER_OFFLINE, PORTAL_IDLE, RESTART_DELAY,
    SCAN_PAUSE,
};
use crate::firmware::number;
use crate::firmware::settings::Net;
use crate::reach;
use crate::rules;
use crate::rules::Input;
use crate::schedule::Schedule;

verus! {

// ----- pins and light --------------------------------------------------------------------------------

/// The relay pins once the deeds have been done.
pub open spec fn pins(d: Seq<Deed>, p: Seq<bool>) -> Seq<bool>
    decreases d.len(),
{
    if d.len() == 0 {
        p
    } else {
        let q = pins(d.drop_last(), p);
        match d.last() {
            Deed::Relay { ch, on } => q.update(ch as int, on),
            _ => q,
        }
    }
}

/// What the LED shows once the deeds have been done.
pub open spec fn lamp(d: Seq<Deed>, l: Light) -> Light
    decreases d.len(),
{
    if d.len() == 0 {
        l
    } else {
        match d.last() {
            Deed::Light(x) => x,
            _ => lamp(d.drop_last(), l),
        }
    }
}

/// While the deeds are done one by one, no two relay pins are ever on together.
pub open spec fn never_two_pins(d: Seq<Deed>, p: Seq<bool>) -> bool {
    forall|k: int| 0 <= k <= d.len() ==> rules::at_most_one(#[trigger] pins(d.take(k), p))
}

/// Nothing that was to be done touches the pins.
#[verifier::opaque]
pub open spec fn hands_off(m: Machine, p: Seq<bool>) -> bool {
    &&& pins(m.deeds, p) == p
    &&& rules::at_most_one(p) ==> never_two_pins(m.deeds, p)
}

proof fn lemma_push(d: Seq<Deed>, x: Deed, p: Seq<bool>)
    ensures
        pins(d.push(x), p) == (match x {
            Deed::Relay { ch, on } => pins(d, p).update(ch as int, on),
            _ => pins(d, p),
        }),
        never_two_pins(d, p) && rules::at_most_one(pins(d.push(x), p)) ==> never_two_pins(
            d.push(x),
            p,
        ),
{
    let e = d.push(x);
    assert(e.drop_last() =~= d);
    if never_two_pins(d, p) && rules::at_most_one(pins(e, p)) {
        assert forall|k: int| 0 <= k <= e.len() implies rules::at_most_one(
            #[trigger] pins(e.take(k), p),
        ) by {
            if k < e.len() {
                assert(e.take(k) =~= d.take(k));
                assert(rules::at_most_one(pins(d.take(k), p)));
            } else {
                assert(e.take(k) =~= e);
            }
        }
    }
}

broadcast proof fn lemma_lamp_does(m: Machine, d: Deed, l: Light)
    ensures
        #[trigger] lamp(m.does(d).deeds, l) == (match d {
            Deed::Light(x) => x,
            _ => lamp(m.deeds, l),
        }),
{
    assert(m.deeds.push(d).drop_last() =~= m.deeds);
}

broadcast proof fn lemma_lamp_sets(m: Machine, key: u32, r: Reading, l: Light)
    ensures
        #[trigger] lamp(m.sets(key, r).deeds, l) == lamp(m.deeds, l),
{
    reveal(Machine::sets);
    broadcast use lemma_lamp_does;

}

broadcast proof fn lemma_hands_off_does(m: Machine, d: Deed, p: Seq<bool>)
    requires
        hands_off(m, p),
        !(d is Relay),
    ensures
        #[trigger] hands_off(m.does(d), p),
{
    reveal(hands_off);
    lemma_push(m.deeds, d, p);
}

broadcast proof fn lemma_hands_off_sets(m: Machine, key: u32, r: Reading, p: Seq<bool>)
    requires
        hands_off(m, p),
    ensures
        #[trigger] hands_off(m.sets(key, r), p),
{
    reveal(Machine::sets);
    reveal(hands_off);
    lemma_push(m.deeds, Deed::Send(crate::api::server::Message::State(key, r)), p);
}

/// Only what is to be done matters.
proof fn lemma_hands_off_same(m: Machine, n: Machine, p: Seq<bool>)
    requires
        hands_off(m, p),
        n.deeds == m.deeds,
    ensures
        hands_off(n, p),
{
    reveal(hands_off);
}

proof fn lemma_hands_off_start(m: Machine, p: Seq<bool>)
    requires
        m.deeds.len() == 0,
    ensures
        hands_off(m, p),
{
    reveal(hands_off);
    assert forall|k: int| 0 <= k <= m.deeds.len() implies #[trigger] pins(m.deeds.take(k), p)
        == p by {
        assert(m.deeds.take(k) =~= m.deeds);
    }
}

/// An action that is applied switches the pin that it names, and leaves the LED alone.
proof fn lemma_acts(m: Machine, a: Action, p: Seq<bool>, l: Light)
    requires
        a matches Action::SetRelay { ch, on } ==> ch < CHANNELS,
    ensures
        pins(m.acts(a).deeds, p) == rules::applied(pins(m.deeds, p), a),
        lamp(m.acts(a).deeds, l) == lamp(m.deeds, l),
        never_two_pins(m.deeds, p) && rules::at_most_one(rules::applied(pins(m.deeds, p), a))
            ==> never_two_pins(m.acts(a).deeds, p),
{
    broadcast use {lemma_lamp_does, lemma_lamp_sets};

    match a {
        Action::SetRelay { ch, on } => {
            let d = Deed::Relay { ch, on };
            let m1 = m.does(d);
            lemma_push(m.deeds, d, p);
            let key = m.keys.relay@[ch as int];
            let m2 = m1.sets(key, Reading::Bool(on));
            lemma_quiet_sets(m1, key, Reading::Bool(on), p);
            let m3 = Machine { tripped: m2.tripped.update(ch as int, false), ..m2 };
            lemma_quiet_sets(m3, m.keys.tripped@[ch as int], Reading::Bool(false), p);
        },
        Action::LinkChanged(link) => {
            lemma_quiet_sets(m, m.keys.link, Reading::Text(link.name()), p);
        },
        Action::SafeguardTripped { ch } => {
            let d = Deed::Play(crate::firmware::buzzer::Tone::Safeguard);
            lemma_push(m.deeds, d, p);
            let m1 = m.does(d);
            let m2 = Machine { tripped: m1.tripped.update(ch as int, true), ..m1 };
            lemma_quiet_sets(m2, m.keys.tripped@[ch as int], Reading::Bool(true), p);
        },
        Action::RainHoldEnded => {
            lemma_push(m.deeds, Deed::SaveConfig, p);
            lemma_quiet_sets(
                m.does(Deed::SaveConfig),
                m.keys.rain_hold_hours,
                Reading::Float(0),
                p,
            );
            lemma_quiet_sets(
                m.does(Deed::SaveConfig).sets(m.keys.rain_hold_hours, Reading::Float(0)),
                m.keys.rain_hold,
                Reading::Text("none"@),
                p,
            );
        },
        Action::DailyUsage { ch, minutes, total_minutes } => {
            broadcast use machine::lemma_sets;

            lemma_push(m.deeds, Deed::SaveUsage, p);
            let m1 = m.does(Deed::SaveUsage);
            let c = ch as int;
            let today = Reading::Float(number::float_of(minutes as nat) as u32);
            let total = Reading::Float(number::float_of(total_minutes as nat) as u32);
            lemma_quiet_sets(m1, m.keys.on_today@[c], today, p);
            let m2 = m1.sets(m.keys.on_today@[c], today);
            lemma_quiet_sets(m2, m.keys.total_on@[c], total, p);
            let m3 = m2.sets(m.keys.total_on@[c], total);
            lemma_quiet_sets(m3, m.keys.daily_limit@[c], Reading::Bool(m.ctl.capped[c]), p);
        },
        Action::DailyCapReached { ch } => {
            let c = ch as int;
            lemma_quiet_sets(m, m.keys.daily_limit@[c], Reading::Bool(m.ctl.capped[c]), p);
        },
        _ => {},
    }
}

/// Setting a state leaves the pins alone.
proof fn lemma_quiet_sets(m: Machine, key: u32, r: Reading, p: Seq<bool>)
    ensures
        pins(m.sets(key, r).deeds, p) == pins(m.deeds, p),
        never_two_pins(m.deeds, p) ==> never_two_pins(m.sets(key, r).deeds, p),
{
    reveal(Machine::sets);
    lemma_push(m.deeds, Deed::Send(crate::api::server::Message::State(key, r)), p);
    if never_two_pins(m.deeds, p) {
        assert(m.deeds.take(m.deeds.len() as int) =~= m.deeds);
        assert(rules::at_most_one(pins(m.deeds.take(m.deeds.len() as int), p)));
    }
}

/// Actions that are applied switch the pins that they name, in order.
proof fn lemma_applies(m: Machine, actions: Seq<Action>, p: Seq<bool>, l: Light)
    requires
        reach::on_board(actions),
    ensures
        pins(m.applies(actions).deeds, p) == rules::replay(pins(m.deeds, p), actions),
        lamp(m.applies(actions).deeds, l) == lamp(m.deeds, l),
        never_two_pins(m.deeds, p) && rules::never_two(pins(m.deeds, p), actions)
            ==> never_two_pins(m.applies(actions).deeds, p),
    decreases actions.len(),
{
    if actions.len() > 0 {
        let rest = actions.drop_last();
        let q = pins(m.deeds, p);
        assert forall|i: int| 0 <= i < rest.len() implies match #[trigger] rest[i] {
            Action::SetRelay { ch, on } => ch < CHANNELS,
            _ => true,
        } by {
            assert(rest[i] == actions[i]);
        }
        lemma_applies(m, rest, p, l);
        assert(actions.last() == actions[actions.len() - 1]);
        lemma_acts(m.applies(rest), actions.last(), p, l);
        if rules::never_two(q, actions) {
            assert forall|k: int| 0 <= k <= rest.len() implies rules::at_most_one(
                #[trigger] rules::replay(q, rest.take(k)),
            ) by {
                assert(rest.take(k) =~= actions.take(k));
                assert(rules::at_most_one(rules::replay(q, actions.take(k))));
            }
            assert(actions.take(actions.len() as int) =~= actions);
            assert(rules::at_most_one(rules::replay(q, actions.take(actions.len() as int))));
        }
    }
}

/// A step of the controller that keeps its rules, tells of every relay that it switches, names
/// relays of the board, and with the interlock, if it is `strict`, never has two relays on.
pub open spec fn well_told(a: Arbiter, s: Step, strict: bool) -> bool {
    &&& s.after.obeys()
    &&& rules::replay(a.relays, s.actions) == s.after.relays
    &&& reach::on_board(s.actions)
    &&& strict && a.cfg.exclusive ==> rules::never_two(a.relays, s.actions)
}

/// What the main loop does carries out what the controller decided, and with the interlock, if it
/// is `strict`, never has two pins on.
pub open spec fn carried_out(m: Machine, n: Machine, strict: bool) -> bool {
    &&& n.ctl.obeys()
    &&& pins(n.deeds, m.ctl.relays) == n.ctl.relays
    &&& strict && m.ctl.cfg.exclusive ==> never_two_pins(n.deeds, m.ctl.relays)
}

proof fn lemma_carried_out(m: Machine, base: Machine, s: Step, strict: bool)
    requires
        m.ctl.obeys(),
        hands_off(base, m.ctl.relays),
        base.ctl == s.after,
        base.tripped.len() == CHANNELS,
        well_told(m.ctl, s, strict),
    ensures
        carried_out(m, base.applies(s.actions), strict),
{
    reveal(hands_off);
    let p = m.ctl.relays;
    lemma_applies(base, s.actions, p, Light::NoWifi);
    machine::lemma_applies_keeps(base, s.actions);
    if strict && m.ctl.cfg.exclusive {
        assert(s.actions.take(0) =~= seq![]);
        assert(rules::at_most_one(rules::replay(p, s.actions.take(0))));
    }
}

proof fn lemma_nothing_switched(m: Machine, n: Machine)
    requires
        m.ctl.obeys(),
        hands_off(n, m.ctl.relays),
        n.ctl.obeys(),
        n.ctl.relays == m.ctl.relays,
    ensures
        carried_out(m, n, true),
{
    reveal(hands_off);
}

pub proof fn lemma_input_told(a: Arbiter, input: Input)
    requires
        a.obeys(),
        a.takes(input),
    ensures
        well_told(a, a.taken(input), !(input is SetExclusive)),
{
    rules::law_inputs_keep_the_rules(a, input);
    reach::law_only_real_relays_are_switched(a, input);
    rules::law_actions_tell_what_was_switched(a, input);
    if a.cfg.exclusive && !(input is SetExclusive) {
        rules::law_interlock_at_every_moment(a, input);
    }
}

pub proof fn lemma_tick_told(m: Machine, at: Moment)
    requires
        m.ctl.obeys(),
    ensures
        well_told(m.ctl, m.tick_step(at), true),
{
    reveal(Machine::tick_step);
    let local = at.local();
    let set = Input::SetEpoch { epoch: at.epoch() };
    lemma_input_told(m.ctl, set);
    let c = m.ctl.with_epoch(at.epoch());
    let learned = if !m.time_known && clock::valid(at.secs) && local is Some {
        c.with_time_known().refresh(at.now, local)
    } else {
        arbiter::stay(c)
    };
    if !m.time_known && clock::valid(at.secs) && local is Some {
        lemma_input_told(c, Input::TimeKnown { now: at.now, at: local->0 });
        rules::lemma_sound_refresh(c.with_time_known(), at.now, local);
    }
    let d = learned.after;
    lemma_input_told(d, Input::Tick { now: at.now, local });
    let rest = d.refresh(at.now, local);
    rules::lemma_replay_concat(c.relays, learned.actions, rest.actions);
    reach::lemma_on_board_concat(learned.actions, rest.actions);
    if c.cfg.exclusive {
        rules::lemma_never_two_concat(c.relays, learned.actions, rest.actions);
    }
}

proof fn lemma_tick_carried(m: Machine, at: Moment)
    requires
        m.wf(),
        m.ctl.obeys(),
        m.deeds.len() == 0,
        !m.restart_due(at),
    ensures
        carried_out(m, m.ticked(at), true),
{
    broadcast use {machine::lemma_sets, lemma_hands_off_does, lemma_hands_off_sets};

    reveal(Machine::ticked);
    let p = m.ctl.relays;
    let s = m.tick_step(at);
    lemma_tick_told(m, at);
    let m0 = Machine {
        ticks: machine::one_more(m.ticks),
        time_known: m.time_known || clock::valid(at.secs),
        ctl: s.after,
        ..m
    };
    lemma_hands_off_start(m0, p);
    let m1 = m0.reports_health(at);
    assert(hands_off(m1, p) && m1.same_but_said(m0)) by {
        reveal(Machine::reports_health);
        let up = number::float_of((at.now / 1000) as nat) as u32;
        let a = Machine {
            world: m0.publishes(m0.keys.uptime, Reading::Float(up)).world,
            ..m0
        };
        lemma_hands_off_same(m0, a, p);
    }
    let m2 = m1.confirms();
    assert(hands_off(m2, p) && m2.ctl == s.after && m2.tripped.len() == CHANNELS && m2.restart_at
        == m.restart_at) by {
        reveal(Machine::confirms);
        lemma_hands_off_same(m1, Machine { confirmed: true, ..m1 }, p);
    }
    let m3 = m2.opens_portal(at);
    assert(hands_off(m3, p) && m3.ctl == s.after && m3.tripped.len() == CHANNELS && m3.restart_at
        == m.restart_at) by {
        reveal(Machine::opens_portal);
        lemma_hands_off_same(
            m2,
            Machine { ap_active: true, portal_since: Some(at.now), ..m2 },
            p,
        );
    }
    let m4 = m3.closes_portal(at);
    assert(hands_off(m4, p) && m4.ctl == s.after && m4.tripped.len() == CHANNELS && m4.restart_at
        == m.restart_at) by {
        reveal(Machine::closes_portal);
        lemma_hands_off_same(m3, Machine { ap_active: false, portal_since: None, ..m3 }, p);
    }
    lemma_carried_out(m, m4, s, true);
}

proof fn lemma_configures_carried(m: Machine, s: Step, key: u32, shown: Reading, strict: bool)
    requires
        m.wf(),
        m.ctl.obeys(),
        m.deeds.len() == 0,
        well_told(m.ctl, s, strict),
    ensures
        carried_out(m, m.configures(s, key, shown), strict),
{
    broadcast use {machine::lemma_sets, lemma_hands_off_does, lemma_hands_off_sets};

    reveal(Machine::configures);
    lemma_hands_off_start(m.with_ctl(s.after), m.ctl.relays);
    let base = m.with_ctl(s.after).does(Deed::SaveConfig).sets(key, shown);
    lemma_carried_out(m, base, s, strict);
}

/// The switch is the one of the interlock.
pub open spec fn switches_interlock(m: Machine, s: Signal) -> bool {
    s matches Signal::Api(Order::Switch { key, on }) && key == m.keys.exclusive
}

proof fn lemma_relay_carried(m: Machine, ch: nat, key: u32, on: bool, at: Moment)
    requires
        m.wf(),
        m.ctl.obeys(),
        m.deeds.len() == 0,
    ensures
        carried_out(m, m.relay_switched(ch, key, on, at), true),
{
    broadcast use lemma_hands_off_does;

    reveal(Machine::relay_switched);
    let p = m.ctl.relays;
    lemma_hands_off_start(m, p);
    let input = Input::HaCommand { ch: ch as usize, on, now: at.now };
    lemma_input_told(m.ctl, input);
    let s = m.ctl.taken(input);
    let shown = Reading::Bool(s.after.relays[ch as int]);
    let told = Machine {
        world: m.with_ctl(s.after).publishes(key, shown).world,
        ..m.with_ctl(s.after)
    };
    lemma_hands_off_same(m, told, p);
    lemma_carried_out(m, m.with_ctl(s.after).publishes(key, shown), s, true);
}

#[verifier::rlimit(40)]
proof fn lemma_switch_carried(m: Machine, key: u32, on: bool, at: Moment)
    requires
        m.wf(),
        m.ctl.obeys(),
        m.deeds.len() == 0,
    ensures
        carried_out(m, m.switched(key, on, at), key != m.keys.exclusive),
{
    broadcast use {machine::lemma_sets, lemma_hands_off_does, lemma_hands_off_sets};

    reveal(Machine::switched);
    let p = m.ctl.relays;
    lemma_hands_off_start(m, p);
    if key == m.keys.buzzer {
        reveal(Machine::buzzer_switched);
        let base = m.with_ctl(m.ctl.with_buzzer(on));
        lemma_hands_off_same(m, base, p);
        lemma_nothing_switched(m, m.switched(key, on, at));
    } else if key == m.keys.exclusive {
        lemma_input_told(m.ctl, Input::SetExclusive { on, now: at.now });
        lemma_configures_carried(
            m,
            m.ctl.with_exclusive(on),
            key,
            Reading::Bool(on),
            false,
        );
    } else if let Some(ch) = entities::channel(m.keys.relay@, key) {
        lemma_relay_carried(m, ch, key, on, at);
    } else if let Some(ch) = entities::channel(m.keys.safe_state@, key) {
        let input = Input::SetSafeState { ch: ch as usize, on, now: at.now };
        lemma_input_told(m.ctl, input);
        lemma_configures_carried(m, m.ctl.taken(input), key, Reading::Bool(on), true);
    } else {
        lemma_nothing_switched(m, m);
    }
}

proof fn lemma_number_carried(m: Machine, key: u32, bits: u32, at: Moment)
    requires
        m.wf(),
        m.ctl.obeys(),
        m.deeds.len() == 0,
    ensures
        carried_out(m, m.number_set(key, bits, at), true),
{
    reveal(Machine::number_set);
    lemma_hands_off_start(m, m.ctl.relays);
    if let Some(ch) = entities::channel(m.keys.max_on@, key) {
        let minutes = number::whole(bits, 1440) as u16;
        let input = Input::SetMaxOn { ch: ch as usize, minutes, now: at.now };
        lemma_input_told(m.ctl, input);
        let shown = Reading::Float(number::float_of(minutes as nat) as u32);
        lemma_configures_carried(m, m.ctl.taken(input), key, shown, true);
    } else if let Some(ch) = entities::channel(m.keys.max_daily@, key) {
        let minutes = number::whole(bits, 1440) as u16;
        let input = Input::SetMaxDaily { ch: ch as usize, minutes, now: at.now };
        lemma_input_told(m.ctl, input);
        let shown = Reading::Float(number::float_of(minutes as nat) as u32);
        lemma_configures_carried(m, m.ctl.taken(input), key, shown, true);
        let n = m.configures(m.ctl.taken(input), key, shown);
        let c = ch as usize as int;
        lemma_sets_carried(
            m,
            n,
            n.keys.daily_limit@[c],
            Reading::Bool(n.ctl.capped[c]),
        );
    } else if key == m.keys.rain_hold_hours {
        let hours = number::whole(bits, 72) as u32;
        lemma_input_told(m.ctl, Input::SetEpoch { epoch: at.epoch() });
        let b = m.ctl.with_epoch(at.epoch());
        let input = Input::SetRainHold { hours, now: at.now, local: at.local() };
        lemma_input_told(b, input);
        let s = b.taken(input);
        let shown = if s.after.cfg.rain_hold_until > 0 {
            hours
        } else {
            0
        };
        let shown = Reading::Float(number::float_of(shown as nat) as u32);
        lemma_configures_carried(m, s, key, shown, true);
        let n = m.configures(s, key, shown);
        let until = clock::hold_text(n.ctl.cfg.rain_hold_until, at.secs, at.local());
        lemma_sets_carried(m, n, n.keys.rain_hold, Reading::Text(until));
    } else {
        lemma_nothing_switched(m, m);
    }
}

/// Setting a state afterwards changes nothing about that.
proof fn lemma_sets_carried(m: Machine, n: Machine, key: u32, r: Reading)
    requires
        carried_out(m, n, true),
    ensures
        carried_out(m, n.sets(key, r), true),
{
    broadcast use machine::lemma_sets;

    lemma_quiet_sets(n, key, r, m.ctl.relays);
}

proof fn lemma_follow_carried(m: Machine, s: Schedule, at: Moment)
    requires
        m.wf(),
        m.ctl.obeys(),
        m.deeds.len() == 0,
    ensures
        carried_out(m, m.follows(s, at), true),
{
    broadcast use {machine::lemma_sets, lemma_hands_off_does, lemma_hands_off_sets};

    reveal(Machine::follows);
    let input = Input::SetSchedule { schedule: s, now: at.now, local: at.local() };
    lemma_input_told(m.ctl, input);
    let step = m.ctl.taken(input);
    lemma_hands_off_start(m.with_ctl(step.after), m.ctl.relays);
    let base = m.with_ctl(step.after).does(Deed::SaveSchedule).says_schedule(s, None);
    lemma_carried_out(m, base, step, true);
}

proof fn lemma_clients_carried(m: Machine, at: Moment)
    requires
        m.wf(),
        m.ctl.obeys(),
        m.deeds.len() == 0,
    ensures
        carried_out(m, m.subscribed(at), true),
        carried_out(m, m.client_gone(at), true),
{
    broadcast use {machine::lemma_sets, lemma_hands_off_does, lemma_hands_off_sets};

    reveal(Machine::subscribed);
    reveal(Machine::client_gone);
    let p = m.ctl.relays;
    lemma_hands_off_start(m, p);
    let up = Machine {
        clients: if m.clients == usize::MAX {
            m.clients
        } else {
            (m.clients + 1) as usize
        },
        ..m
    };
    let s = if up.clients == 1 {
        m.ctl.connected(at.now).refresh(at.now, None)
    } else {
        arbiter::stay(m.ctl)
    };
    lemma_input_told(m.ctl, Input::HaConnected { now: at.now });
    lemma_stay_told(m.ctl);
    let up1 = up.with_ctl(s.after);
    lemma_hands_off_start(up1, p);
    if up.ap_active {
        lemma_carried_out(m, up1, s, true);
    } else {
        let lit = up1.does(Deed::Light(Light::Online));
        assert(lit =~= up.does(Deed::Light(Light::Online)).with_ctl(s.after));
        lemma_carried_out(m, lit, s, true);
    }
    let down = Machine {
        clients: if m.clients == 0 {
            0
        } else {
            (m.clients - 1) as usize
        },
        ..m
    };
    lemma_hands_off_start(down, p);
    if down.clients > 0 {
        lemma_nothing_switched(m, down);
    } else {
        let input = Input::HaDisconnected { now: at.now, local: at.local() };
        lemma_input_told(m.ctl, input);
        let t = m.ctl.taken(input);
        let down1 = down.with_ctl(t.after);
        lemma_hands_off_start(down1, p);
        if down.ap_active {
            lemma_carried_out(m, down1, t, true);
        } else {
            let light = if down.wifi_up {
                Light::WifiNoHa
            } else {
                Light::NoWifi
            };
            let lit = down1.does(Deed::Light(light));
            assert(lit =~= down.does(Deed::Light(light)).with_ctl(t.after));
            lemma_carried_out(m, lit, t, true);
        }
    }
}

pub proof fn lemma_stay_told(a: Arbiter)
    requires
        a.obeys(),
    ensures
        well_told(a, arbiter::stay(a), true),
{
    let none = Seq::<Action>::empty();
    assert forall|k: int| 0 <= k <= none.len() implies #[trigger] rules::replay(
        a.relays,
        none.take(k),
    ) == a.relays by {
        assert(none.take(k) =~= none);
    }
}

proof fn lemma_ordered_carried(m: Machine, o: Order, at: Moment, empty: Schedule)
    requires
        m.wf(),
        m.ctl.obeys(),
        m.deeds.len() == 0,
    ensures
        carried_out(m, m.ordered(o, at, empty), !switches_interlock(m, Signal::Api(o))),
{
    broadcast use {machine::lemma_sets, lemma_hands_off_does, lemma_hands_off_sets};

    let p = m.ctl.relays;
    lemma_hands_off_start(m, p);
    lemma_nothing_switched(m, m);
    match o {
        Order::ClientSubscribed { client_info } => {
            lemma_clients_carried(m, at);
        },
        Order::ClientGone { subscribed } => {
            lemma_clients_carried(m, at);
        },
        Order::Switch { key, on } => {
            lemma_switch_carried(m, key, on, at);
        },
        Order::Number { key, value } => {
            lemma_number_carried(m, key, value, at);
        },
        Order::Select { key, option } => {
            reveal(Machine::selected);
            if let Some(mode) = entities::option_mode(option) {
                let input = Input::SetMode { mode, now: at.now, local: at.local() };
                lemma_input_told(m.ctl, input);
                let shown = Reading::Text(entities::label(mode));
                lemma_configures_carried(m, m.ctl.taken(input), key, shown, true);
            }
        },
        Order::Button { key } => {
            if key == m.keys.all_off {
                lemma_input_told(m.ctl, Input::AllOff { now: at.now });
                let t = m.ctl.drop_to(arbiter::all_false());
                lemma_hands_off_start(m.with_ctl(t.after), p);
                lemma_carried_out(m, m.with_ctl(t.after), t, true);
            } else {
                lemma_nothing_switched(m, m.pressed(key));
            }
        },
        Order::Service { key, args } => {
            reveal(Machine::service);
            if key == m.keys.clear_schedule && key != m.keys.set_schedule {
                lemma_follow_carried(m, empty, at);
            } else {
                lemma_hands_off_start(Machine { updating: true, ..m }, p);
                lemma_nothing_switched(m, m.service(key, args, at, empty));
            }
        },
        Order::Time { epoch_seconds, timezone } => {
            let a = m.does(Deed::SetEpoch(epoch_seconds));
            lemma_hands_off_same(a, Machine { tz: timezone, ..a }, p);
            lemma_nothing_switched(m, m.ordered(o, at, empty));
        },
    }
}

proof fn lemma_reacts_carried(m: Machine, s: Signal, at: Moment, empty: Schedule)
    requires
        m.wf(),
        m.ctl.obeys(),
        m.deeds.len() == 0,
        !(s is Tick && m.restart_due(at)),
    ensures
        carried_out(m, m.reacts(s, at, empty), !switches_interlock(m, s)),
{
    broadcast use {machine::lemma_sets, lemma_hands_off_does, lemma_hands_off_sets};

    let p = m.ctl.relays;
    lemma_hands_off_start(m, p);
    let n = m.reacts(s, at, empty);
    match s {
        Signal::Tick => {
            lemma_tick_carried(m, at);
        },
        Signal::WifiUp(ip) => {
            let a = Machine {
                wifi_up: true,
                sta_down_since: None,
                portal_since: if m.ap_active {
                    Some(at.now)
                } else {
                    m.portal_since
                },
                ..m
            };
            lemma_hands_off_same(m, a, p);
            lemma_nothing_switched(m, n);
        },
        Signal::WifiDown => {
            let a = Machine {
                sta_down_since: if m.wifi_up || m.sta_down_since is None {
                    Some(at.now)
                } else {
                    m.sta_down_since
                },
                wifi_up: false,
                ..m
            };
            lemma_hands_off_same(m, a, p);
            lemma_nothing_switched(m, n);
        },
        Signal::LongPress => {
            lemma_hands_off_same(m, Machine { ap_active: false, portal_since: None, ..m }, p);
            lemma_hands_off_same(
                m,
                Machine { ap_active: true, portal_since: Some(at.now), ..m },
                p,
            );
            lemma_nothing_switched(m, n);
        },
        Signal::PortalScan => {
            lemma_hands_off_same(m, Machine { last_scan: Some(at.now), ..m }, p);
            lemma_nothing_switched(m, n);
        },
        Signal::Provision(new) => {
            let a = Machine {
                sta_down_since: Some(at.now),
                restart_at: n.restart_at,
                net: new,
                ..m
            };
            lemma_hands_off_same(m, a, p);
            lemma_nothing_switched(m, n);
        },
        Signal::Rssi(v) => {
            let a = Machine { world: n.world, ..m };
            lemma_hands_off_same(m, a, p);
            lemma_nothing_switched(m, n);
        },
        Signal::Api(o) => {
            lemma_ordered_carried(m, o, at, empty);
        },
        Signal::Schedule(r) => {
            match r {
                Ok(x) => {
                    lemma_follow_carried(m, x, at);
                },
                Err(e) => {
                    lemma_nothing_switched(m, n);
                },
            }
        },
        Signal::TimeSet => {
            reveal(Machine::learns_time);
            let shown = m.sets(m.keys.local_time, Reading::Text(clock::shown(at.local())));
            let k = Machine { time_known: true, ..shown };
            lemma_hands_off_same(shown, k, p);
            if !m.time_known && at.local() is Some {
                let input = Input::TimeKnown { now: at.now, at: at.local()->0 };
                lemma_input_told(m.ctl, input);
                let t = m.ctl.taken(input);
                lemma_hands_off_same(k, k.with_ctl(t.after), p);
                lemma_carried_out(m, k.with_ctl(t.after), t, true);
            } else {
                lemma_nothing_switched(m, n);
            }
        },
        _ => {
            lemma_nothing_switched(m, n);
        },
    }
}

/// The pins follow the controller: whatever the main loop reacts to, once everything has been done
/// the relay pins are on exactly where the controller has them on, and the controller's rules
/// hold. (A device that restarts does nothing more.)
pub proof fn law_the_pins_follow_the_controller(
    m: Machine,
    s: Signal,
    at: Moment,
    empty: Schedule,
)
    requires
        m.wf(),
        m.ctl.obeys(),
        m.deeds.len() == 0,
        !(s is Tick && m.restart_due(at)),
    ensures
        pins(m.reacts(s, at, empty).deeds, m.ctl.relays) == m.reacts(s, at, empty).ctl.relays,
        m.reacts(s, at, empty).ctl.obeys(),
{
    lemma_reacts_carried(m, s, at, empty);
}

/// With the interlock no two relay pins are on together at any moment while things are done one by
/// one, whatever the main loop reacts to. (Only switching the interlock itself on may find
/// several relays on.)
pub proof fn law_the_interlock_holds_on_the_pins(
    m: Machine,
    s: Signal,
    at: Moment,
    empty: Schedule,
)
    requires
        m.wf(),
        m.ctl.obeys(),
        m.deeds.len() == 0,
        m.ctl.cfg.exclusive,
        !switches_interlock(m, s),
        !(s is Tick && m.restart_due(at)),
    ensures
        never_two_pins(m.reacts(s, at, empty).deeds, m.ctl.relays),
{
    lemma_reacts_carried(m, s, at, empty);
}

// ----- the LED ---------------------------------------------------------------------------------------

/// What the LED should show: blue for the setup access point, red without WiFi, amber without Home
/// Assistant, green when all is well.
pub open spec fn fitting(m: Machine) -> Light {
    if m.ap_active {
        Light::Portal
    } else if !m.wifi_up {
        Light::NoWifi
    } else if m.clients > 0 {
        Light::Online
    } else {
        Light::WifiNoHa
    }
}

/// Nothing that matters to the LED has changed.
pub open spec fn as_lit(m: Machine, n: Machine, l: Light) -> bool {
    &&& n.ap_active == m.ap_active
    &&& n.wifi_up == m.wifi_up
    &&& n.clients == m.clients
    &&& lamp(n.deeds, l) == lamp(m.deeds, l)
}

proof fn lemma_applies_lit(m: Machine, actions: Seq<Action>, l: Light)
    requires
        m.tripped.len() == CHANNELS,
    ensures
        as_lit(m, m.applies(actions), l),
    decreases actions.len(),
{
    broadcast use {machine::lemma_sets, lemma_lamp_does, lemma_lamp_sets};

    if actions.len() > 0 {
        lemma_applies_lit(m, actions.drop_last(), l);
        machine::lemma_applies_keeps(m, actions.drop_last());
        let b = m.applies(actions.drop_last());
        let n = b.acts(actions.last());
        assert(as_lit(b, n, l)) by {
            match actions.last() {
                Action::SetRelay { ch, on } => {
                    if ch < CHANNELS {
                        let x = b.does(Deed::Relay { ch, on }).sets(
                            b.keys.relay@[ch as int],
                            Reading::Bool(on),
                        );
                        let y = Machine { tripped: x.tripped.update(ch as int, false), ..x };
                        assert(lamp(y.deeds, l) == lamp(b.deeds, l));
                    }
                },
                Action::SafeguardTripped { ch } => {
                    if ch < CHANNELS {
                        let x = b.does(Deed::Play(crate::firmware::buzzer::Tone::Safeguard));
                        let y = Machine { tripped: x.tripped.update(ch as int, true), ..x };
                        assert(lamp(y.deeds, l) == lamp(b.deeds, l));
                    }
                },
                _ => {},
            }
        }
    }
}

proof fn lemma_configures_lit(m: Machine, s: Step, key: u32, shown: Reading, l: Light)
    requires
        m.tripped.len() == CHANNELS,
    ensures
        as_lit(m, m.configures(s, key, shown), l),
{
    broadcast use {machine::lemma_sets, lemma_lamp_does, lemma_lamp_sets};

    reveal(Machine::configures);
    let c = m.with_ctl(s.after);
    let d = c.does(Deed::SaveConfig);
    let base = d.sets(key, shown);
    assert(lamp(d.deeds, l) == lamp(m.deeds, l));
    lemma_applies_lit(base, s.actions, l);
}

proof fn lemma_switch_lit(m: Machine, key: u32, on: bool, at: Moment, l: Light)
    requires
        m.tripped.len() == CHANNELS,
    ensures
        as_lit(m, m.switched(key, on, at), l),
{
    broadcast use {machine::lemma_sets, lemma_lamp_does, lemma_lamp_sets};

    reveal(Machine::switched);
    if key == m.keys.buzzer {
        reveal(Machine::buzzer_switched);
        let c = m.with_ctl(m.ctl.with_buzzer(on));
        assert(lamp(c.deeds, l) == lamp(m.deeds, l));
    } else if key == m.keys.exclusive {
        lemma_configures_lit(m, m.ctl.with_exclusive(on), key, Reading::Bool(on), l);
    } else if let Some(ch) = entities::channel(m.keys.relay@, key) {
        reveal(Machine::relay_switched);
        let t = m.ctl.ha_command(ch as usize, on, at.now);
        let shown = Reading::Bool(t.after.relays[ch as int]);
        let base = m.with_ctl(t.after).publishes(key, shown);
        let told = Machine { world: base.world, ..m.with_ctl(t.after) };
        assert(lamp(told.deeds, l) == lamp(m.deeds, l));
        lemma_applies_lit(base, t.actions, l);
    } else if let Some(ch) = entities::channel(m.keys.safe_state@, key) {
        let t = m.ctl.with_safe_state(ch as usize, on).refresh(at.now, None);
        lemma_configures_lit(m, t, key, Reading::Bool(on), l);
    }
}

proof fn lemma_number_lit(m: Machine, key: u32, bits: u32, at: Moment, l: Light)
    requires
        m.tripped.len() == CHANNELS,
    ensures
        as_lit(m, m.number_set(key, bits, at), l),
{
    broadcast use {machine::lemma_sets, lemma_lamp_sets};

    reveal(Machine::number_set);
    if let Some(ch) = entities::channel(m.keys.max_on@, key) {
        let minutes = number::whole(bits, 1440) as u16;
        let shown = Reading::Float(number::float_of(minutes as nat) as u32);
        let t = m.ctl.with_max_on(ch as usize, minutes).trip(at.now);
        lemma_configures_lit(m, t, key, shown, l);
    } else if let Some(ch) = entities::channel(m.keys.max_daily@, key) {
        let minutes = number::whole(bits, 1440) as u16;
        let shown = Reading::Float(number::float_of(minutes as nat) as u32);
        let t = m.ctl.with_daily_cap(ch as usize, minutes).account(at.now, None);
        lemma_configures_lit(m, t, key, shown, l);
    } else {
        let hours = number::whole(bits, 72) as u32;
        let t = m.ctl.with_epoch(at.epoch()).with_rain_hold(hours).refresh(at.now, at.local());
        let shown = if t.after.cfg.rain_hold_until > 0 {
            hours
        } else {
            0
        };
        let shown = Reading::Float(number::float_of(shown as nat) as u32);
        lemma_configures_lit(m, t, key, shown, l);
    }
}

proof fn lemma_follow_lit(m: Machine, s: Schedule, at: Moment, l: Light)
    requires
        m.tripped.len() == CHANNELS,
    ensures
        as_lit(m, m.follows(s, at), l),
{
    broadcast use {machine::lemma_sets, lemma_lamp_does, lemma_lamp_sets};

    reveal(Machine::follows);
    let t = m.ctl.with_schedule(s).refresh(at.now, at.local());
    let c = m.with_ctl(t.after);
    let d = c.does(Deed::SaveSchedule);
    assert(lamp(d.deeds, l) == lamp(m.deeds, l));
    lemma_applies_lit(d.says_schedule(s, None), t.actions, l);
}

proof fn lemma_tick_lit(m: Machine, at: Moment, l: Light)
    requires
        m.tripped.len() == CHANNELS,
        m.deeds.len() == 0,
        l == fitting(m),
    ensures
        lamp(m.ticked(at).deeds, l) == fitting(m.ticked(at)),
{
    broadcast use {machine::lemma_sets, lemma_lamp_does, lemma_lamp_sets};

    reveal(Machine::ticked);
    let t = m.tick_step(at);
    let m0 = Machine {
        ticks: machine::one_more(m.ticks),
        time_known: m.time_known || clock::valid(at.secs),
        ctl: t.after,
        ..m
    };
    let m1 = m0.reports_health(at);
    assert(as_lit(m0, m1, l) && m1.tripped == m0.tripped) by {
        reveal(Machine::reports_health);
        let up = number::float_of((at.now / 1000) as nat) as u32;
        let a = m0.publishes(m0.keys.uptime, Reading::Float(up));
        let told = Machine { world: a.world, ..m0 };
        assert(lamp(told.deeds, l) == lamp(m0.deeds, l));
    }
    let m2 = m1.confirms();
    assert(as_lit(m1, m2, l) && m2.tripped == m0.tripped) by {
        reveal(Machine::confirms);
        let c = Machine { confirmed: true, ..m1 };
        assert(lamp(c.deeds, l) == lamp(m1.deeds, l));
    }
    let m3 = m2.opens_portal(at);
    assert(lamp(m3.deeds, l) == fitting(m3) && m3.tripped == m0.tripped) by {
        reveal(Machine::opens_portal);
    }
    let m4 = m3.closes_portal(at);
    assert(lamp(m4.deeds, l) == fitting(m4) && m4.tripped == m0.tripped) by {
        reveal(Machine::closes_portal);
    }
    lemma_applies_lit(m4, t.actions, l);
}

proof fn lemma_clients_lit(m: Machine, at: Moment, l: Light)
    requires
        m.tripped.len() == CHANNELS,
        m.deeds.len() == 0,
        l == fitting(m),
    ensures
        m.ap_active || m.wifi_up ==> lamp(m.subscribed(at).deeds, l) == fitting(m.subscribed(at)),
        lamp(m.client_gone(at).deeds, l) == fitting(m.client_gone(at)),
{
    broadcast use {machine::lemma_sets, lemma_lamp_does, lemma_lamp_sets};

    reveal(Machine::subscribed);
    reveal(Machine::client_gone);
    let up = Machine {
        clients: if m.clients == usize::MAX {
            m.clients
        } else {
            (m.clients + 1) as usize
        },
        ..m
    };
    let s = if up.clients == 1 {
        m.ctl.connected(at.now).refresh(at.now, None)
    } else {
        arbiter::stay(m.ctl)
    };
    let up1 = if up.ap_active {
        up
    } else {
        up.does(Deed::Light(Light::Online))
    };
    lemma_applies_lit(up1.with_ctl(s.after), s.actions, l);
    let down = Machine {
        clients: if m.clients == 0 {
            0
        } else {
            (m.clients - 1) as usize
        },
        ..m
    };
    let light = if down.wifi_up {
        Light::WifiNoHa
    } else {
        Light::NoWifi
    };
    let down1 = if down.ap_active {
        down
    } else {
        down.does(Deed::Light(light))
    };
    let t = m.ctl.disconnected().refresh(at.now, at.local());
    lemma_applies_lit(down1.with_ctl(t.after), t.actions, l);
}

proof fn lemma_ordered_lit(m: Machine, o: Order, at: Moment, empty: Schedule, l: Light)
    requires
        m.tripped.len() == CHANNELS,
        m.deeds.len() == 0,
        l == fitting(m),
        o is ClientSubscribed ==> m.ap_active || m.wifi_up,
    ensures
        lamp(m.ordered(o, at, empty).deeds, l) == fitting(m.ordered(o, at, empty)),
{
    broadcast use {machine::lemma_sets, lemma_lamp_does, lemma_lamp_sets};

    match o {
        Order::ClientSubscribed { client_info } => {
            lemma_clients_lit(m, at, l);
        },
        Order::ClientGone { subscribed } => {
            lemma_clients_lit(m, at, l);
        },
        Order::Switch { key, on } => {
            lemma_switch_lit(m, key, on, at, l);
        },
        Order::Number { key, value } => {
            lemma_number_lit(m, key, value, at, l);
        },
        Order::Select { key, option } => {
            reveal(Machine::selected);
            if let Some(mode) = entities::option_mode(option) {
                let t = m.ctl.with_mode(mode, at.now, at.local());
                lemma_configures_lit(m, t, key, Reading::Text(entities::label(mode)), l);
            }
        },
        Order::Button { key } => {
            let t = m.ctl.drop_to(arbiter::all_false());
            lemma_applies_lit(m.with_ctl(t.after), t.actions, l);
        },
        Order::Service { key, args } => {
            reveal(Machine::service);
            lemma_follow_lit(m, empty, at, l);
        },
        Order::Time { epoch_seconds, timezone } => {
            let a = m.does(Deed::SetEpoch(epoch_seconds));
            let b = Machine { tz: timezone, ..a };
            assert(lamp(b.deeds, l) == lamp(m.deeds, l));
        },
    }
}

/// The LED shows the state of the device: if it did so before, it does so once everything has been
/// done. (Excepted is a client that subscribes while the station is down and the access point
/// closed.)
pub proof fn law_the_light_shows_the_state(
    m: Machine,
    s: Signal,
    at: Moment,
    empty: Schedule,
    before: Light,
)
    requires
        m.wf(),
        m.deeds.len() == 0,
        before == fitting(m),
        s matches Signal::Api(Order::ClientSubscribed { client_info }) ==> m.ap_active || m.wifi_up,
    ensures
        lamp(m.reacts(s, at, empty).deeds, before) == fitting(m.reacts(s, at, empty)),
{
    broadcast use {machine::lemma_sets, lemma_lamp_does, lemma_lamp_sets};

    match s {
        Signal::Tick => {
            lemma_tick_lit(m, at, before);
        },
        Signal::Api(o) => {
            lemma_ordered_lit(m, o, at, empty, before);
        },
        Signal::Rssi(v) => {
            let n = m.reacts(s, at, empty);
            let told = Machine { world: n.world, ..m };
            assert(lamp(told.deeds, before) == before);
        },
        Signal::Schedule(r) => {
            if let Ok(x) = r {
                lemma_follow_lit(m, x, at, before);
            }
        },
        Signal::TimeSet => {
            reveal(Machine::learns_time);
            let shown = m.sets(m.keys.local_time, Reading::Text(clock::shown(at.local())));
            let k = Machine { time_known: true, ..shown };
            if at.local() is Some {
                let t = k.ctl.with_time_known().refresh(at.now, at.local());
                lemma_applies_lit(k.with_ctl(t.after), t.actions, before);
            }
        },
        _ => {},
    }
}

// ----- the access point ------------------------------------------------------------------------------

/// A long outage opens the access point, so that the credentials can be mended.
pub proof fn law_a_long_outage_opens_the_portal(m: Machine, at: Moment)
    requires
        m.tripped.len() == CHANNELS,
        m.credentials(),
        machine::long_since(m.sta_down_since, at.now, PORTAL_AFTER_OFFLINE),
        !m.wifi_up,
    ensures
        m.ticked(at).ap_active,
{
    broadcast use machine::lemma_sets;

    reveal(Machine::ticked);
    reveal(Machine::reports_health);
    reveal(Machine::confirms);
    reveal(Machine::opens_portal);
    reveal(Machine::closes_portal);
    lemma_tick_base(m, at);
}

/// Once the station is back the access point stays open for its time, and then closes.
pub proof fn law_the_portal_closes_when_the_station_is_back(m: Machine, at: Moment)
    requires
        m.tripped.len() == CHANNELS,
        m.credentials(),
        m.ap_active,
        m.wifi_up,
        m.portal_since is Some,
    ensures
        m.ticked(at).ap_active == !machine::long_since(m.portal_since, at.now, PORTAL_IDLE),
        m.went_up(at).portal_since == Some(at.now),
{
    broadcast use machine::lemma_sets;

    reveal(Machine::ticked);
    reveal(Machine::reports_health);
    reveal(Machine::confirms);
    reveal(Machine::opens_portal);
    reveal(Machine::closes_portal);
    lemma_tick_base(m, at);
}

proof fn lemma_tick_base(m: Machine, at: Moment)
    requires
        m.tripped.len() == CHANNELS,
    ensures
        ({
            let t = m.tick_step(at);
            let b = Machine {
                ticks: machine::one_more(m.ticks),
                time_known: m.time_known || clock::valid(at.secs),
                ctl: t.after,
                ..m
            }.reports_health(at).confirms().opens_portal(at).closes_portal(at);
            b.applies(t.actions).ap_active == b.ap_active
        }),
{
    broadcast use machine::lemma_sets;

    reveal(Machine::reports_health);
    reveal(Machine::confirms);
    reveal(Machine::opens_portal);
    reveal(Machine::closes_portal);
    let t = m.tick_step(at);
    let b = Machine {
        ticks: machine::one_more(m.ticks),
        time_known: m.time_known || clock::valid(at.secs),
        ctl: t.after,
        ..m
    }.reports_health(at).confirms().opens_portal(at).closes_portal(at);
    machine::lemma_applies_keeps(b, t.actions);
}

/// A device without credentials never closes its access point by itself.
pub proof fn law_the_portal_stays_open_without_credentials(m: Machine, at: Moment)
    requires
        m.tripped.len() == CHANNELS,
        !m.credentials(),
        m.ap_active,
    ensures
        m.ticked(at).ap_active,
{
    broadcast use machine::lemma_sets;

    reveal(Machine::ticked);
    reveal(Machine::reports_health);
    reveal(Machine::confirms);
    reveal(Machine::opens_portal);
    reveal(Machine::closes_portal);
    lemma_tick_base(m, at);
}

/// The button opens the access point and, pressed again, closes it.
pub proof fn law_the_button_toggles_the_portal(m: Machine, at: Moment, later: Moment)
    ensures
        m.toggles_portal(at).ap_active == !m.ap_active,
        m.toggles_portal(at).toggles_portal(later).ap_active == m.ap_active,
{
}

/// New settings take effect: a new name or key restarts the device after a while, a new network
/// alone does not.
pub proof fn law_new_names_and_keys_restart_the_device(m: Machine, new: Net, at: Moment)
    requires
        at.sane(),
        m.restart_at is None,
    ensures
        m.provisioned(new, at).net == new,
        m.provisioned(new, at).restart_at == (if new.name == m.net.name && new.psk_b64
            == m.net.psk_b64 && new.friendly_name == m.net.friendly_name {
            None
        } else {
            Some((at.now + RESTART_DELAY) as u64)
        }),
{
}

/// Scans for the setup page are never close together.
pub proof fn law_scans_keep_their_distance(m: Machine, at: Moment, later: Moment)
    requires
        at.now <= later.now <= at.now + SCAN_PAUSE,
        m.asks_for_scan(at).last_scan == Some(at.now),
    ensures
        m.asks_for_scan(at).asks_for_scan(later) == m.asks_for_scan(at),
{
}

/// An image that has proved itself is confirmed once.
pub proof fn law_images_are_confirmed_once(m: Machine)
    ensures
        m.confirms().confirms() == m.confirms(),
        m.clients > 0 ==> m.confirms().confirmed,
        m.ticks > 300 ==> m.confirms().confirmed,
{
    reveal(Machine::confirms);
}

} // verus!
