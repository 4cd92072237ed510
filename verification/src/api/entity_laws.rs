//! What Home Assistant reads in the messages about an entity.

use vstd::prelude::*;
use vstd::utf8::*;

use crate::api::entity;
use crate::api::entity::{Entity, Kind, Reading};
use crate::api::message;
use crate::api::message::{ApiMessage, Slot, Value};
use crate::api::proto;
use crate::api::round_trip;
use crate::api::wire;

verus! {

// ----- states ----------------------------------------------------------------------------------------

/// The text can be sent.
pub open spec fn sendable(t: Seq<char>) -> bool {
    encode_utf8(t).len() <= u64::MAX
}

/// A number as it arrives: there is one zero only.
pub open spec fn arrives(float: u32) -> u32 {
    if float == 0x8000_0000 {
        0
    } else {
        float
    }
}

/// A reader that knows the key as field 1, the state as field 2 and that a state is missing as
/// field 3 finds these.
pub open spec fn found_in(b: Seq<u8>, kind: wire::Kind, key: u32, state: Value) -> bool {
    message::read(
        seq![
            Slot { tag: 1, kind: wire::Kind::Fixed },
            Slot { tag: 2, kind },
            Slot { tag: 3, kind: wire::Kind::Flag },
            Slot { tag: 4, kind: wire::Kind::Uint },
        ],
        seq![],
        b,
    ) == Some(seq![Value::Fixed(key), state, Value::Flag(false), Value::Uint(0)])
}

proof fn lemma_read<M: ApiMessage>(values: Seq<Value>)
    requires
        message::laid_out(M::slots(), M::part(), values),
        forall|i: int| 0 <= i < values.len() ==> round_trip::storable(M::part(), #[trigger] values[i]),
    ensures
        message::read(M::slots(), M::part(), entity::raw_of::<M>(values).payload) == Some(values),
        entity::raw_of::<M>(values).id == M::id(),
{
    round_trip::lemma_written_values_are_read(M::slots(), M::part(), values);
}

/// What is written for a number is what is written for it as it arrives.
proof fn lemma_arrives<M: ApiMessage>(key: u32, f: u32)
    requires
        M::slots().len() == 4,
    ensures
        entity::raw_of::<M>(
            seq![Value::Fixed(key), Value::Float(f), Value::Flag(false), Value::Uint(0)],
        ) == entity::raw_of::<M>(
            seq![Value::Fixed(key), Value::Float(arrives(f)), Value::Flag(false), Value::Uint(0)],
        ),
{
    let v = seq![Value::Fixed(key), Value::Float(f), Value::Flag(false), Value::Uint(0)];
    let w = seq![Value::Fixed(key), Value::Float(arrives(f)), Value::Flag(false), Value::Uint(0)];
    if f == 0x8000_0000 {
        round_trip::lemma_zeros_are_written_alike(M::slots(), M::part(), v, 1, 4);
        assert(v.update(1, Value::Float(0)) =~= w);
    }
}

/// A switch that reports its state is read as that switch, on exactly if it was recorded as on.
pub proof fn law_switches_report_their_state(e: Entity, on: bool)
    requires
        e.kind is Switch,
    ensures
        e.report(Reading::Bool(on)) matches Some(raw) && raw.id == 26 && message::read(
            seq![
                Slot { tag: 1, kind: wire::Kind::Fixed },
                Slot { tag: 2, kind: wire::Kind::Flag },
                Slot { tag: 3, kind: wire::Kind::Uint },
            ],
            seq![],
            raw.payload,
        ) == Some(seq![Value::Fixed(e.key), Value::Flag(on), Value::Uint(0)]),
        forall|m: proto::SwitchStateResponse|
            message::read(
                proto::SwitchStateResponse::slots(),
                proto::SwitchStateResponse::part(),
                (e.report(Reading::Bool(on))->0).payload,
            ) == Some(#[trigger] m.values()) ==> m.key == e.key && m.state == on,
{
    let v = seq![Value::Fixed(e.key), Value::Flag(on), Value::Uint(0)];
    lemma_read::<proto::SwitchStateResponse>(v);
    assert(proto::SwitchStateResponse::slots() =~= seq![
        Slot { tag: 1, kind: wire::Kind::Fixed },
        Slot { tag: 2, kind: wire::Kind::Flag },
        Slot { tag: 3, kind: wire::Kind::Uint },
    ]);
    assert forall|m: proto::SwitchStateResponse| v == #[trigger] m.values() implies m.key == e.key
        && m.state == on by {
        assert(m.values()[0] == v[0] && m.values()[1] == v[1]);
    }
}

/// A binary sensor that reports its state is read as that sensor, on exactly if it was recorded as
/// on: an alarm shows when it fires, and not when it does not.
pub proof fn law_binary_sensors_report_their_state(e: Entity, on: bool)
    requires
        e.kind is BinarySensor,
    ensures
        e.report(Reading::Bool(on)) matches Some(raw) && raw.id == 21 && found_in(
            raw.payload,
            wire::Kind::Flag,
            e.key,
            Value::Flag(on),
        ),
        forall|m: proto::BinarySensorStateResponse|
            message::read(
                proto::BinarySensorStateResponse::slots(),
                proto::BinarySensorStateResponse::part(),
                (e.report(Reading::Bool(on))->0).payload,
            ) == Some(#[trigger] m.values()) ==> m.key == e.key && m.state == on
                && !m.missing_state,
{
    let v = seq![Value::Fixed(e.key), Value::Flag(on), Value::Flag(false), Value::Uint(0)];
    lemma_read::<proto::BinarySensorStateResponse>(v);
    assert(proto::BinarySensorStateResponse::slots() =~= seq![
        Slot { tag: 1, kind: wire::Kind::Fixed },
        Slot { tag: 2, kind: wire::Kind::Flag },
        Slot { tag: 3, kind: wire::Kind::Flag },
        Slot { tag: 4, kind: wire::Kind::Uint },
    ]);
    assert forall|m: proto::BinarySensorStateResponse| v == #[trigger] m.values() implies m.key
        == e.key && m.state == on && !m.missing_state by {
        assert(m.values()[0] == v[0] && m.values()[1] == v[1] && m.values()[2] == v[2]);
    }
}

/// A number that reports its state is read as that number, with the value that was recorded.
pub proof fn law_numbers_report_their_state(e: Entity, f: u32)
    requires
        e.kind is Number,
    ensures
        e.report(Reading::Float(f)) matches Some(raw) && raw.id == 50 && found_in(
            raw.payload,
            wire::Kind::Float,
            e.key,
            Value::Float(arrives(f)),
        ),
        forall|m: proto::NumberStateResponse|
            message::read(
                proto::NumberStateResponse::slots(),
                proto::NumberStateResponse::part(),
                (e.report(Reading::Float(f))->0).payload,
            ) == Some(#[trigger] m.values()) ==> m.key == e.key && m.state == arrives(f)
                && !m.missing_state,
{
    let v = seq![Value::Fixed(e.key), Value::Float(arrives(f)), Value::Flag(false), Value::Uint(0)];
    lemma_arrives::<proto::NumberStateResponse>(e.key, f);
    lemma_read::<proto::NumberStateResponse>(v);
    assert(proto::NumberStateResponse::slots() =~= seq![
        Slot { tag: 1, kind: wire::Kind::Fixed },
        Slot { tag: 2, kind: wire::Kind::Float },
        Slot { tag: 3, kind: wire::Kind::Flag },
        Slot { tag: 4, kind: wire::Kind::Uint },
    ]);
    assert forall|m: proto::NumberStateResponse| v == #[trigger] m.values() implies m.key == e.key
        && m.state == arrives(f) && !m.missing_state by {
        assert(m.values()[0] == v[0] && m.values()[1] == v[1] && m.values()[2] == v[2]);
    }
}

/// A sensor that reports its state is read as that sensor, with the value that was recorded.
pub proof fn law_sensors_report_their_state(e: Entity, f: u32)
    requires
        e.kind is Sensor,
    ensures
        e.report(Reading::Float(f)) matches Some(raw) && raw.id == 25 && found_in(
            raw.payload,
            wire::Kind::Float,
            e.key,
            Value::Float(arrives(f)),
        ),
        forall|m: proto::SensorStateResponse|
            message::read(
                proto::SensorStateResponse::slots(),
                proto::SensorStateResponse::part(),
                (e.report(Reading::Float(f))->0).payload,
            ) == Some(#[trigger] m.values()) ==> m.key == e.key && m.state == arrives(f)
                && !m.missing_state,
{
    let v = seq![Value::Fixed(e.key), Value::Float(arrives(f)), Value::Flag(false), Value::Uint(0)];
    lemma_arrives::<proto::SensorStateResponse>(e.key, f);
    lemma_read::<proto::SensorStateResponse>(v);
    assert(proto::SensorStateResponse::slots() =~= seq![
        Slot { tag: 1, kind: wire::Kind::Fixed },
        Slot { tag: 2, kind: wire::Kind::Float },
        Slot { tag: 3, kind: wire::Kind::Flag },
        Slot { tag: 4, kind: wire::Kind::Uint },
    ]);
    assert forall|m: proto::SensorStateResponse| v == #[trigger] m.values() implies m.key == e.key
        && m.state == arrives(f) && !m.missing_state by {
        assert(m.values()[0] == v[0] && m.values()[1] == v[1] && m.values()[2] == v[2]);
    }
}

/// A select that reports its state is read as that select, with the option that was recorded.
pub proof fn law_selects_report_their_state(e: Entity, t: Seq<char>)
    requires
        e.kind is Select,
        sendable(t),
    ensures
        e.report(Reading::Text(t)) matches Some(raw) && raw.id == 53 && found_in(
            raw.payload,
            wire::Kind::Text,
            e.key,
            Value::Text(t),
        ),
        forall|m: proto::SelectStateResponse|
            message::read(
                proto::SelectStateResponse::slots(),
                proto::SelectStateResponse::part(),
                (e.report(Reading::Text(t))->0).payload,
            ) == Some(#[trigger] m.values()) ==> m.key == e.key && m.state@ == t
                && !m.missing_state,
{
    let v = seq![Value::Fixed(e.key), Value::Text(t), Value::Flag(false), Value::Uint(0)];
    lemma_read::<proto::SelectStateResponse>(v);
    assert(proto::SelectStateResponse::slots() =~= seq![
        Slot { tag: 1, kind: wire::Kind::Fixed },
        Slot { tag: 2, kind: wire::Kind::Text },
        Slot { tag: 3, kind: wire::Kind::Flag },
        Slot { tag: 4, kind: wire::Kind::Uint },
    ]);
    assert forall|m: proto::SelectStateResponse| v == #[trigger] m.values() implies m.key == e.key
        && m.state@ == t && !m.missing_state by {
        assert(m.values()[0] == v[0] && m.values()[1] == v[1] && m.values()[2] == v[2]);
    }
}

/// A text sensor that reports its state is read as that sensor, with the text that was recorded.
pub proof fn law_text_sensors_report_their_state(e: Entity, t: Seq<char>)
    requires
        e.kind is TextSensor,
        sendable(t),
    ensures
        e.report(Reading::Text(t)) matches Some(raw) && raw.id == 27 && found_in(
            raw.payload,
            wire::Kind::Text,
            e.key,
            Value::Text(t),
        ),
        forall|m: proto::TextSensorStateResponse|
            message::read(
                proto::TextSensorStateResponse::slots(),
                proto::TextSensorStateResponse::part(),
                (e.report(Reading::Text(t))->0).payload,
            ) == Some(#[trigger] m.values()) ==> m.key == e.key && m.state@ == t
                && !m.missing_state,
{
    let v = seq![Value::Fixed(e.key), Value::Text(t), Value::Flag(false), Value::Uint(0)];
    lemma_read::<proto::TextSensorStateResponse>(v);
    assert(proto::TextSensorStateResponse::slots() =~= seq![
        Slot { tag: 1, kind: wire::Kind::Fixed },
        Slot { tag: 2, kind: wire::Kind::Text },
        Slot { tag: 3, kind: wire::Kind::Flag },
        Slot { tag: 4, kind: wire::Kind::Uint },
    ]);
    assert forall|m: proto::TextSensorStateResponse| v == #[trigger] m.values() implies m.key
        == e.key && m.state@ == t && !m.missing_state by {
        assert(m.values()[0] == v[0] && m.values()[1] == v[1] && m.values()[2] == v[2]);
    }
}

/// Two states of an entity that are not equal are reported by different messages.
pub proof fn law_different_states_are_told_apart(e: Entity, s: Reading, t: Reading)
    requires
        e.report(s) is Some,
        e.report(t) is Some,
        s matches Reading::Text(x) ==> sendable(x),
        t matches Reading::Text(x) ==> sendable(x),
        e.report(s) == e.report(t),
    ensures
        match (s, t) {
            (Reading::Bool(a), Reading::Bool(b)) => a == b,
            (Reading::Float(a), Reading::Float(b)) => arrives(a) == arrives(b),
            (Reading::Text(a), Reading::Text(b)) => a == b,
            _ => false,
        },
{
    match (s, t) {
        (Reading::Bool(a), Reading::Bool(b)) => {
            if e.kind is Switch {
                law_switches_report_their_state(e, a);
                law_switches_report_their_state(e, b);
                let x = seq![Value::Fixed(e.key), Value::Flag(a), Value::Uint(0)];
                let y = seq![Value::Fixed(e.key), Value::Flag(b), Value::Uint(0)];
                assert(x == y);
                assert(x[1] == y[1]);
            } else {
                law_binary_sensors_report_their_state(e, a);
                law_binary_sensors_report_their_state(e, b);
                lemma_told_apart(e.key, Value::Flag(a), Value::Flag(b));
            }
        },
        (Reading::Float(a), Reading::Float(b)) => {
            if e.kind is Number {
                law_numbers_report_their_state(e, a);
                law_numbers_report_their_state(e, b);
            } else {
                law_sensors_report_their_state(e, a);
                law_sensors_report_their_state(e, b);
            }
            lemma_told_apart(e.key, Value::Float(arrives(a)), Value::Float(arrives(b)));
        },
        (Reading::Text(a), Reading::Text(b)) => {
            if e.kind is Select {
                law_selects_report_their_state(e, a);
                law_selects_report_their_state(e, b);
            } else {
                law_text_sensors_report_their_state(e, a);
                law_text_sensors_report_their_state(e, b);
            }
            lemma_told_apart(e.key, Value::Text(a), Value::Text(b));
        },
        _ => {},
    }
}

proof fn lemma_told_apart(key: u32, a: Value, b: Value)
    ensures
        seq![Value::Fixed(key), a, Value::Flag(false), Value::Uint(0)] == seq![
            Value::Fixed(key),
            b,
            Value::Flag(false),
            Value::Uint(0),
        ] ==> a == b,
{
    let x = seq![Value::Fixed(key), a, Value::Flag(false), Value::Uint(0)];
    let y = seq![Value::Fixed(key), b, Value::Flag(false), Value::Uint(0)];
    assert(x[1] == a && y[1] == b);
}

} // verus!
