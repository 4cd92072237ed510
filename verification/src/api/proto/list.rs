//! Messages that describe what the device exposes.

use vstd::prelude::*;

use crate::api::error::{Error, Fault};
use crate::api::message;
use crate::api::message::{ApiMessage, Fields, Slot, Value};
use crate::api::wire;
use crate::api::wire::Kind;

verus! {

/// A binary sensor.
#[derive(Debug, Clone, PartialEq, Eq)]
pub struct ListEntitiesBinarySensorResponse {
    pub object_id: String,
    pub key: u32,
    pub name: String,
    pub device_class: String,
    pub is_status_binary_sensor: bool,
    pub disabled_by_default: bool,
    pub icon: String,
    pub entity_category: i32,
    pub device_id: u32,
}

impl ApiMessage for ListEntitiesBinarySensorResponse {
    const ID: u32 = 12;

    open spec fn id() -> u32 {
        12
    }

    proof fn lemma_id() {
    }

    open spec fn slots() -> Seq<Slot> {
        seq![
            Slot { tag: 1, kind: Kind::Text },
            Slot { tag: 2, kind: Kind::Fixed },
            Slot { tag: 3, kind: Kind::Text },
            Slot { tag: 5, kind: Kind::Text },
            Slot { tag: 6, kind: Kind::Flag },
            Slot { tag: 7, kind: Kind::Flag },
            Slot { tag: 8, kind: Kind::Text },
            Slot { tag: 9, kind: Kind::Int },
            Slot { tag: 10, kind: Kind::Uint },
        ]
    }

    open spec fn part() -> Seq<Slot> {
        seq![]
    }

    open spec fn values(&self) -> Seq<Value> {
        seq![
            Value::Text(self.object_id@),
            Value::Fixed(self.key),
            Value::Text(self.name@),
            Value::Text(self.device_class@),
            Value::Flag(self.is_status_binary_sensor),
            Value::Flag(self.disabled_by_default),
            Value::Text(self.icon@),
            Value::Int(self.entity_category),
            Value::Uint(self.device_id),
        ]
    }

    proof fn lemma_laid_out(&self) {
    }

    fn encode_to_vec(&self) -> (r: Vec<u8>) {
        let mut out: Vec<u8> = Vec::new();
        let ghost (s, p, v) = (Self::slots(), Self::part(), self.values());
        assert(out@ == message::fields(s, p, v, 0));
        message::put_text(1, &self.object_id, &mut out);
        assert(out@ == message::fields(s, p, v, 1));
        message::put_fixed(2, self.key, &mut out);
        assert(out@ == message::fields(s, p, v, 2));
        message::put_text(3, &self.name, &mut out);
        assert(out@ == message::fields(s, p, v, 3));
        message::put_text(5, &self.device_class, &mut out);
        assert(out@ == message::fields(s, p, v, 4));
        message::put_flag(6, self.is_status_binary_sensor, &mut out);
        assert(out@ == message::fields(s, p, v, 5));
        message::put_flag(7, self.disabled_by_default, &mut out);
        assert(out@ == message::fields(s, p, v, 6));
        message::put_text(8, &self.icon, &mut out);
        assert(out@ == message::fields(s, p, v, 7));
        message::put_int(9, self.entity_category, &mut out);
        assert(out@ == message::fields(s, p, v, 8));
        message::put_uint(10, self.device_id, &mut out);
        out
    }

    fn decode(buf: &[u8]) -> (r: Result<Self, Error>) {
        let slots: Vec<Slot> = vec![
            Slot { tag: 1, kind: Kind::Text },
            Slot { tag: 2, kind: Kind::Fixed },
            Slot { tag: 3, kind: Kind::Text },
            Slot { tag: 5, kind: Kind::Text },
            Slot { tag: 6, kind: Kind::Flag },
            Slot { tag: 7, kind: Kind::Flag },
            Slot { tag: 8, kind: Kind::Text },
            Slot { tag: 9, kind: Kind::Int },
            Slot { tag: 10, kind: Kind::Uint },
        ];
        assert(slots@ =~= Self::slots());
        let f = match message::find(&slots, buf) {
            Ok(f) => f,
            Err(e) => return Err(e),
        };
        let r = ListEntitiesBinarySensorResponse {
            object_id: f.text(1),
            key: f.fixed(2),
            name: f.text(3),
            device_class: f.text(5),
            is_status_binary_sensor: f.flag(6),
            disabled_by_default: f.flag(7),
            icon: f.text(8),
            entity_category: f.signed(9),
            device_id: f.uint(10),
        };
        proof {
            let items = f@;
            assert(message::parts_readable(Self::part(), items)) by {
                message::lemma_no_parts(slots@, Self::part(), buf@);
            }
            assert(r.values() =~= Seq::new(
                slots@.len(),
                |i: int| message::value(slots@[i], Self::part(), items),
            ));
        }
        Ok(r)
    }
}

/// A sensor.
#[derive(Debug, Clone, PartialEq, Eq)]
pub struct ListEntitiesSensorResponse {
    pub object_id: String,
    pub key: u32,
    pub name: String,
    pub icon: String,
    pub unit_of_measurement: String,
    pub accuracy_decimals: i32,
    pub force_update: bool,
    pub device_class: String,
    pub state_class: i32,
    pub legacy_last_reset_type: i32,
    pub disabled_by_default: bool,
    pub entity_category: i32,
    pub device_id: u32,
}

impl ApiMessage for ListEntitiesSensorResponse {
    const ID: u32 = 16;

    open spec fn id() -> u32 {
        16
    }

    proof fn lemma_id() {
    }

    open spec fn slots() -> Seq<Slot> {
        seq![
            Slot { tag: 1, kind: Kind::Text },
            Slot { tag: 2, kind: Kind::Fixed },
            Slot { tag: 3, kind: Kind::Text },
            Slot { tag: 5, kind: Kind::Text },
            Slot { tag: 6, kind: Kind::Text },
            Slot { tag: 7, kind: Kind::Int },
            Slot { tag: 8, kind: Kind::Flag },
            Slot { tag: 9, kind: Kind::Text },
            Slot { tag: 10, kind: Kind::Int },
            Slot { tag: 11, kind: Kind::Int },
            Slot { tag: 12, kind: Kind::Flag },
            Slot { tag: 13, kind: Kind::Int },
            Slot { tag: 14, kind: Kind::Uint },
        ]
    }

    open spec fn part() -> Seq<Slot> {
        seq![]
    }

    open spec fn values(&self) -> Seq<Value> {
        seq![
            Value::Text(self.object_id@),
            Value::Fixed(self.key),
            Value::Text(self.name@),
            Value::Text(self.icon@),
            Value::Text(self.unit_of_measurement@),
            Value::Int(self.accuracy_decimals),
            Value::Flag(self.force_update),
            Value::Text(self.device_class@),
            Value::Int(self.state_class),
            Value::Int(self.legacy_last_reset_type),
            Value::Flag(self.disabled_by_default),
            Value::Int(self.entity_category),
            Value::Uint(self.device_id),
        ]
    }

    proof fn lemma_laid_out(&self) {
    }

    fn encode_to_vec(&self) -> (r: Vec<u8>) {
        let mut out: Vec<u8> = Vec::new();
        let ghost (s, p, v) = (Self::slots(), Self::part(), self.values());
        assert(out@ == message::fields(s, p, v, 0));
        message::put_text(1, &self.object_id, &mut out);
        assert(out@ == message::fields(s, p, v, 1));
        message::put_fixed(2, self.key, &mut out);
        assert(out@ == message::fields(s, p, v, 2));
        message::put_text(3, &self.name, &mut out);
        assert(out@ == message::fields(s, p, v, 3));
        message::put_text(5, &self.icon, &mut out);
        assert(out@ == message::fields(s, p, v, 4));
        message::put_text(6, &self.unit_of_measurement, &mut out);
        assert(out@ == message::fields(s, p, v, 5));
        message::put_int(7, self.accuracy_decimals, &mut out);
        assert(out@ == message::fields(s, p, v, 6));
        message::put_flag(8, self.force_update, &mut out);
        assert(out@ == message::fields(s, p, v, 7));
        message::put_text(9, &self.device_class, &mut out);
        assert(out@ == message::fields(s, p, v, 8));
        message::put_int(10, self.state_class, &mut out);
        assert(out@ == message::fields(s, p, v, 9));
        message::put_int(11, self.legacy_last_reset_type, &mut out);
        assert(out@ == message::fields(s, p, v, 10));
        message::put_flag(12, self.disabled_by_default, &mut out);
        assert(out@ == message::fields(s, p, v, 11));
        message::put_int(13, self.entity_category, &mut out);
        assert(out@ == message::fields(s, p, v, 12));
        message::put_uint(14, self.device_id, &mut out);
        out
    }

    fn decode(buf: &[u8]) -> (r: Result<Self, Error>) {
        let slots: Vec<Slot> = vec![
            Slot { tag: 1, kind: Kind::Text },
            Slot { tag: 2, kind: Kind::Fixed },
            Slot { tag: 3, kind: Kind::Text },
            Slot { tag: 5, kind: Kind::Text },
            Slot { tag: 6, kind: Kind::Text },
            Slot { tag: 7, kind: Kind::Int },
            Slot { tag: 8, kind: Kind::Flag },
            Slot { tag: 9, kind: Kind::Text },
            Slot { tag: 10, kind: Kind::Int },
            Slot { tag: 11, kind: Kind::Int },
            Slot { tag: 12, kind: Kind::Flag },
            Slot { tag: 13, kind: Kind::Int },
            Slot { tag: 14, kind: Kind::Uint },
        ];
        assert(slots@ =~= Self::slots());
        let f = match message::find(&slots, buf) {
            Ok(f) => f,
            Err(e) => return Err(e),
        };
        let r = ListEntitiesSensorResponse {
            object_id: f.text(1),
            key: f.fixed(2),
            name: f.text(3),
            icon: f.text(5),
            unit_of_measurement: f.text(6),
            accuracy_decimals: f.signed(7),
            force_update: f.flag(8),
            device_class: f.text(9),
            state_class: f.signed(10),
            legacy_last_reset_type: f.signed(11),
            disabled_by_default: f.flag(12),
            entity_category: f.signed(13),
            device_id: f.uint(14),
        };
        proof {
            let items = f@;
            assert(message::parts_readable(Self::part(), items)) by {
                message::lemma_no_parts(slots@, Self::part(), buf@);
            }
            assert(r.values() =~= Seq::new(
                slots@.len(),
                |i: int| message::value(slots@[i], Self::part(), items),
            ));
        }
        Ok(r)
    }
}

/// A switch.
#[derive(Debug, Clone, PartialEq, Eq)]
pub struct ListEntitiesSwitchResponse {
    pub object_id: String,
    pub key: u32,
    pub name: String,
    pub icon: String,
    pub assumed_state: bool,
    pub disabled_by_default: bool,
    pub entity_category: i32,
    pub device_class: String,
    pub device_id: u32,
}

impl ApiMessage for ListEntitiesSwitchResponse {
    const ID: u32 = 17;

    open spec fn id() -> u32 {
        17
    }

    proof fn lemma_id() {
    }

    open spec fn slots() -> Seq<Slot> {
        seq![
            Slot { tag: 1, kind: Kind::Text },
            Slot { tag: 2, kind: Kind::Fixed },
            Slot { tag: 3, kind: Kind::Text },
            Slot { tag: 5, kind: Kind::Text },
            Slot { tag: 6, kind: Kind::Flag },
            Slot { tag: 7, kind: Kind::Flag },
            Slot { tag: 8, kind: Kind::Int },
            Slot { tag: 9, kind: Kind::Text },
            Slot { tag: 10, kind: Kind::Uint },
        ]
    }

    open spec fn part() -> Seq<Slot> {
        seq![]
    }

    open spec fn values(&self) -> Seq<Value> {
        seq![
            Value::Text(self.object_id@),
            Value::Fixed(self.key),
            Value::Text(self.name@),
            Value::Text(self.icon@),
            Value::Flag(self.assumed_state),
            Value::Flag(self.disabled_by_default),
            Value::Int(self.entity_category),
            Value::Text(self.device_class@),
            Value::Uint(self.device_id),
        ]
    }

    proof fn lemma_laid_out(&self) {
    }

    fn encode_to_vec(&self) -> (r: Vec<u8>) {
        let mut out: Vec<u8> = Vec::new();
        let ghost (s, p, v) = (Self::slots(), Self::part(), self.values());
        assert(out@ == message::fields(s, p, v, 0));
        message::put_text(1, &self.object_id, &mut out);
        assert(out@ == message::fields(s, p, v, 1));
        message::put_fixed(2, self.key, &mut out);
        assert(out@ == message::fields(s, p, v, 2));
        message::put_text(3, &self.name, &mut out);
        assert(out@ == message::fields(s, p, v, 3));
        message::put_text(5, &self.icon, &mut out);
        assert(out@ == message::fields(s, p, v, 4));
        message::put_flag(6, self.assumed_state, &mut out);
        assert(out@ == message::fields(s, p, v, 5));
        message::put_flag(7, self.disabled_by_default, &mut out);
        assert(out@ == message::fields(s, p, v, 6));
        message::put_int(8, self.entity_category, &mut out);
        assert(out@ == message::fields(s, p, v, 7));
        message::put_text(9, &self.device_class, &mut out);
        assert(out@ == message::fields(s, p, v, 8));
        message::put_uint(10, self.device_id, &mut out);
        out
    }

    fn decode(buf: &[u8]) -> (r: Result<Self, Error>) {
        let slots: Vec<Slot> = vec![
            Slot { tag: 1, kind: Kind::Text },
            Slot { tag: 2, kind: Kind::Fixed },
            Slot { tag: 3, kind: Kind::Text },
            Slot { tag: 5, kind: Kind::Text },
            Slot { tag: 6, kind: Kind::Flag },
            Slot { tag: 7, kind: Kind::Flag },
            Slot { tag: 8, kind: Kind::Int },
            Slot { tag: 9, kind: Kind::Text },
            Slot { tag: 10, kind: Kind::Uint },
        ];
        assert(slots@ =~= Self::slots());
        let f = match message::find(&slots, buf) {
            Ok(f) => f,
            Err(e) => return Err(e),
        };
        let r = ListEntitiesSwitchResponse {
            object_id: f.text(1),
            key: f.fixed(2),
            name: f.text(3),
            icon: f.text(5),
            assumed_state: f.flag(6),
            disabled_by_default: f.flag(7),
            entity_category: f.signed(8),
            device_class: f.text(9),
            device_id: f.uint(10),
        };
        proof {
            let items = f@;
            assert(message::parts_readable(Self::part(), items)) by {
                message::lemma_no_parts(slots@, Self::part(), buf@);
            }
            assert(r.values() =~= Seq::new(
                slots@.len(),
                |i: int| message::value(slots@[i], Self::part(), items),
            ));
        }
        Ok(r)
    }
}

/// A text sensor.
#[derive(Debug, Clone, PartialEq, Eq)]
pub struct ListEntitiesTextSensorResponse {
    pub object_id: String,
    pub key: u32,
    pub name: String,
    pub icon: String,
    pub disabled_by_default: bool,
    pub entity_category: i32,
    pub device_class: String,
    pub device_id: u32,
}

impl ApiMessage for ListEntitiesTextSensorResponse {
    const ID: u32 = 18;

    open spec fn id() -> u32 {
        18
    }

    proof fn lemma_id() {
    }

    open spec fn slots() -> Seq<Slot> {
        seq![
            Slot { tag: 1, kind: Kind::Text },
            Slot { tag: 2, kind: Kind::Fixed },
            Slot { tag: 3, kind: Kind::Text },
            Slot { tag: 5, kind: Kind::Text },
            Slot { tag: 6, kind: Kind::Flag },
            Slot { tag: 7, kind: Kind::Int },
            Slot { tag: 8, kind: Kind::Text },
            Slot { tag: 9, kind: Kind::Uint },
        ]
    }

    open spec fn part() -> Seq<Slot> {
        seq![]
    }

    open spec fn values(&self) -> Seq<Value> {
        seq![
            Value::Text(self.object_id@),
            Value::Fixed(self.key),
            Value::Text(self.name@),
            Value::Text(self.icon@),
            Value::Flag(self.disabled_by_default),
            Value::Int(self.entity_category),
            Value::Text(self.device_class@),
            Value::Uint(self.device_id),
        ]
    }

    proof fn lemma_laid_out(&self) {
    }

    fn encode_to_vec(&self) -> (r: Vec<u8>) {
        let mut out: Vec<u8> = Vec::new();
        message::put_text(1, &self.object_id, &mut out);
        message::put_fixed(2, self.key, &mut out);
        message::put_text(3, &self.name, &mut out);
        message::put_text(5, &self.icon, &mut out);
        message::put_flag(6, self.disabled_by_default, &mut out);
        message::put_int(7, self.entity_category, &mut out);
        message::put_text(8, &self.device_class, &mut out);
        message::put_uint(9, self.device_id, &mut out);
        proof {
            reveal_with_fuel(message::fields, 9);
        }
        out
    }

    fn decode(buf: &[u8]) -> (r: Result<Self, Error>) {
        let slots: Vec<Slot> = vec![
            Slot { tag: 1, kind: Kind::Text },
            Slot { tag: 2, kind: Kind::Fixed },
            Slot { tag: 3, kind: Kind::Text },
            Slot { tag: 5, kind: Kind::Text },
            Slot { tag: 6, kind: Kind::Flag },
            Slot { tag: 7, kind: Kind::Int },
            Slot { tag: 8, kind: Kind::Text },
            Slot { tag: 9, kind: Kind::Uint },
        ];
        assert(slots@ =~= Self::slots());
        let f = match message::find(&slots, buf) {
            Ok(f) => f,
            Err(e) => return Err(e),
        };
        let r = ListEntitiesTextSensorResponse {
            object_id: f.text(1),
            key: f.fixed(2),
            name: f.text(3),
            icon: f.text(5),
            disabled_by_default: f.flag(6),
            entity_category: f.signed(7),
            device_class: f.text(8),
            device_id: f.uint(9),
        };
        proof {
            let items = f@;
            assert(message::parts_readable(Self::part(), items)) by {
                message::lemma_no_parts(slots@, Self::part(), buf@);
            }
            assert(r.values() =~= Seq::new(
                slots@.len(),
                |i: int| message::value(slots@[i], Self::part(), items),
            ));
        }
        Ok(r)
    }
}

/// An argument of a [`ListEntitiesServicesResponse`].
#[derive(Debug, Clone, PartialEq, Eq)]
pub struct ListEntitiesServicesArgument {
    pub name: String,
    pub ty: i32,
    pub description: String,
    pub example: String,
}

impl ListEntitiesServicesArgument {
    pub open spec fn slots() -> Seq<Slot> {
        seq![
            Slot { tag: 1, kind: Kind::Text },
            Slot { tag: 2, kind: Kind::Int },
            Slot { tag: 3, kind: Kind::Text },
            Slot { tag: 4, kind: Kind::Text },
        ]
    }

    pub open spec fn values(&self) -> Seq<Value> {
        seq![
            Value::Text(self.name@),
            Value::Int(self.ty),
            Value::Text(self.description@),
            Value::Text(self.example@),
        ]
    }

    /// The message on the wire.
    pub fn encode_to_vec(&self) -> (r: Vec<u8>)
        ensures
            r@ == message::flat_fields(Self::slots(), self.values(), Self::slots().len()),
    {
        let mut out: Vec<u8> = Vec::new();
        message::put_text(1, &self.name, &mut out);
        message::put_int(2, self.ty, &mut out);
        message::put_text(3, &self.description, &mut out);
        message::put_text(4, &self.example, &mut out);
        proof {
            reveal_with_fuel(message::flat_fields, 5);
        }
        out
    }

    /// The message that the bytes hold, as a part of another one.
    pub fn decode(buf: &[u8]) -> (r: Result<Self, Error>)
        ensures
            match message::flat_read(Self::slots(), buf@) {
                Some(values) => r is Ok && r->Ok_0.values() == values,
                None => r is Err && r->Err_0@ == Fault::Decode,
            },
    {
        let slots: Vec<Slot> = vec![
            Slot { tag: 1, kind: Kind::Text },
            Slot { tag: 2, kind: Kind::Int },
            Slot { tag: 3, kind: Kind::Text },
            Slot { tag: 4, kind: Kind::Text },
        ];
        assert(slots@ =~= Self::slots());
        let f = match message::find_inside(&slots, buf) {
            Ok(f) => f,
            Err(e) => return Err(e),
        };
        let r = ListEntitiesServicesArgument {
            name: f.text(1),
            ty: f.signed(2),
            description: f.text(3),
            example: f.text(4),
        };
        proof {
            let items = f@;
            assert(r.values() =~= Seq::new(
                slots@.len(),
                |i: int| message::flat_value(slots@[i], items),
            ));
        }
        Ok(r)
    }
}

fn put_parts_list_entities_services_argument(tag: u32, v: &Vec<ListEntitiesServicesArgument>, out: &mut Vec<u8>)
    requires
        1 <= tag <= wire::MAX_TAG,
    ensures
        final(out)@ == old(out)@ + message::part_fields(
            tag,
            ListEntitiesServicesArgument::slots(),
            v@.map_values(|a: ListEntitiesServicesArgument| a.values()),
            v@.len(),
        ),
{
    let ghost start = out@;
    let ghost parts = v@.map_values(|a: ListEntitiesServicesArgument| a.values());
    let mut i: usize = 0;
    assert(start =~= start + message::part_fields(tag, ListEntitiesServicesArgument::slots(), parts, 0));
    while i < v.len()
        invariant
            1 <= tag <= wire::MAX_TAG,
            i <= v@.len(),
            parts == v@.map_values(|a: ListEntitiesServicesArgument| a.values()),
            out@ == start + message::part_fields(tag, ListEntitiesServicesArgument::slots(), parts, i as nat),
        decreases v.len() - i,
    {
        let bytes = v[i].encode_to_vec();
        wire::put_bytes(tag, &bytes, out);
        i += 1;
        assert(out@ =~= start + message::part_fields(tag, ListEntitiesServicesArgument::slots(), parts, i as nat));
    }
}

fn take_parts_list_entities_services_argument(f: &Fields, tag: u32) -> (r: Result<Vec<ListEntitiesServicesArgument>, Error>)
    ensures
        match r {
            Ok(v) => {
                &&& forall|i: int|
                    0 <= i < message::parts(f@, tag).len() ==> message::flat_read(
                        ListEntitiesServicesArgument::slots(),
                        #[trigger] message::parts(f@, tag)[i],
                    ) is Some
                &&& v@.map_values(|a: ListEntitiesServicesArgument| a.values()) == message::parts(
                    f@,
                    tag,
                ).map_values(|b: Seq<u8>| message::flat_read(ListEntitiesServicesArgument::slots(), b)->0)
            },
            Err(e) => e@ == Fault::Decode && exists|i: int|
                0 <= i < message::parts(f@, tag).len() && message::flat_read(
                    ListEntitiesServicesArgument::slots(),
                    #[trigger] message::parts(f@, tag)[i],
                ) is None,
        },
{
    let all = f.parts(tag);
    let ghost bytes = message::parts(f@, tag);
    let mut out: Vec<ListEntitiesServicesArgument> = Vec::new();
    let mut i: usize = 0;
    while i < all.len()
        invariant
            i <= all@.len(),
            out@.len() == i,
            all@.map_values(|v: Vec<u8>| v@) == bytes,
            bytes == message::parts(f@, tag),
            forall|j: int|
                0 <= j < i ==> message::flat_read(
                    ListEntitiesServicesArgument::slots(),
                    #[trigger] bytes[j],
                ) == Some(out@[j].values()),
        decreases all.len() - i,
    {
        assert(bytes[i as int] == all@[i as int]@);
        match ListEntitiesServicesArgument::decode(all[i].as_slice()) {
            Ok(a) => out.push(a),
            Err(e) => return Err(e),
        }
        i += 1;
    }
    assert(bytes.len() == all@.len());
    assert(out@.map_values(|a: ListEntitiesServicesArgument| a.values()) =~= bytes.map_values(
        |b: Seq<u8>| message::flat_read(ListEntitiesServicesArgument::slots(), b)->0,
    ));
    Ok(out)
}

/// An action.
#[derive(Debug, Clone, PartialEq, Eq)]
pub struct ListEntitiesServicesResponse {
    pub name: String,
    pub key: u32,
    pub args: Vec<ListEntitiesServicesArgument>,
    pub supports_response: i32,
    pub description: String,
}

impl ApiMessage for ListEntitiesServicesResponse {
    const ID: u32 = 41;

    open spec fn id() -> u32 {
        41
    }

    proof fn lemma_id() {
    }

    open spec fn slots() -> Seq<Slot> {
        seq![
            Slot { tag: 1, kind: Kind::Text },
            Slot { tag: 2, kind: Kind::Fixed },
            Slot { tag: 3, kind: Kind::Parts },
            Slot { tag: 4, kind: Kind::Int },
            Slot { tag: 5, kind: Kind::Text },
        ]
    }

    open spec fn part() -> Seq<Slot> {
        ListEntitiesServicesArgument::slots()
    }

    open spec fn values(&self) -> Seq<Value> {
        seq![
            Value::Text(self.name@),
            Value::Fixed(self.key),
            Value::Parts(self.args@.map_values(|a: ListEntitiesServicesArgument| a.values())),
            Value::Int(self.supports_response),
            Value::Text(self.description@),
        ]
    }

    proof fn lemma_laid_out(&self) {
        let parts = self.args@.map_values(|a: ListEntitiesServicesArgument| a.values());
        assert forall|i: int| 0 <= i < parts.len() implies message::all_fit_flat(
            Self::part(),
            #[trigger] parts[i],
        ) by {
            assert(parts[i] == self.args@[i].values());
        }
    }

    fn encode_to_vec(&self) -> (r: Vec<u8>) {
        let mut out: Vec<u8> = Vec::new();
        message::put_text(1, &self.name, &mut out);
        message::put_fixed(2, self.key, &mut out);
        put_parts_list_entities_services_argument(3, &self.args, &mut out);
        message::put_int(4, self.supports_response, &mut out);
        message::put_text(5, &self.description, &mut out);
        proof {
            reveal_with_fuel(message::fields, 6);
        }
        out
    }

    fn decode(buf: &[u8]) -> (r: Result<Self, Error>) {
        let slots: Vec<Slot> = vec![
            Slot { tag: 1, kind: Kind::Text },
            Slot { tag: 2, kind: Kind::Fixed },
            Slot { tag: 3, kind: Kind::Parts },
            Slot { tag: 4, kind: Kind::Int },
            Slot { tag: 5, kind: Kind::Text },
        ];
        assert(slots@ =~= Self::slots());
        let f = match message::find(&slots, buf) {
            Ok(f) => f,
            Err(e) => return Err(e),
        };
        proof {
            message::lemma_only_parts(slots@, Self::part(), 3, buf@);
        }
        let args = match take_parts_list_entities_services_argument(&f, 3) {
            Ok(v) => v,
            Err(e) => return Err(e),
        };
        let r = ListEntitiesServicesResponse {
            name: f.text(1),
            key: f.fixed(2),
            args,
            supports_response: f.signed(4),
            description: f.text(5),
        };
        proof {
            let items = f@;
            message::lemma_only_parts(slots@, Self::part(), 3, buf@);
            assert(r.values() =~= Seq::new(
                slots@.len(),
                |i: int| message::value(slots@[i], Self::part(), items),
            ));
        }
        Ok(r)
    }
}

/// A number.
#[derive(Debug, Clone, PartialEq, Eq)]
pub struct ListEntitiesNumberResponse {
    pub object_id: String,
    pub key: u32,
    pub name: String,
    pub icon: String,
    /// The four bytes of the number.
    pub min_value: u32,
    /// The four bytes of the number.
    pub max_value: u32,
    /// The four bytes of the number.
    pub step: u32,
    pub disabled_by_default: bool,
    pub entity_category: i32,
    pub unit_of_measurement: String,
    pub mode: i32,
    pub device_class: String,
    pub device_id: u32,
}

impl ApiMessage for ListEntitiesNumberResponse {
    const ID: u32 = 49;

    open spec fn id() -> u32 {
        49
    }

    proof fn lemma_id() {
    }

    open spec fn slots() -> Seq<Slot> {
        seq![
            Slot { tag: 1, kind: Kind::Text },
            Slot { tag: 2, kind: Kind::Fixed },
            Slot { tag: 3, kind: Kind::Text },
            Slot { tag: 5, kind: Kind::Text },
            Slot { tag: 6, kind: Kind::Float },
            Slot { tag: 7, kind: Kind::Float },
            Slot { tag: 8, kind: Kind::Float },
            Slot { tag: 9, kind: Kind::Flag },
            Slot { tag: 10, kind: Kind::Int },
            Slot { tag: 11, kind: Kind::Text },
            Slot { tag: 12, kind: Kind::Int },
            Slot { tag: 13, kind: Kind::Text },
            Slot { tag: 14, kind: Kind::Uint },
        ]
    }

    open spec fn part() -> Seq<Slot> {
        seq![]
    }

    open spec fn values(&self) -> Seq<Value> {
        seq![
            Value::Text(self.object_id@),
            Value::Fixed(self.key),
            Value::Text(self.name@),
            Value::Text(self.icon@),
            Value::Float(self.min_value),
            Value::Float(self.max_value),
            Value::Float(self.step),
            Value::Flag(self.disabled_by_default),
            Value::Int(self.entity_category),
            Value::Text(self.unit_of_measurement@),
            Value::Int(self.mode),
            Value::Text(self.device_class@),
            Value::Uint(self.device_id),
        ]
    }

    proof fn lemma_laid_out(&self) {
    }

    fn encode_to_vec(&self) -> (r: Vec<u8>) {
        let mut out: Vec<u8> = Vec::new();
        let ghost (s, p, v) = (Self::slots(), Self::part(), self.values());
        assert(out@ == message::fields(s, p, v, 0));
        message::put_text(1, &self.object_id, &mut out);
        assert(out@ == message::fields(s, p, v, 1));
        message::put_fixed(2, self.key, &mut out);
        assert(out@ == message::fields(s, p, v, 2));
        message::put_text(3, &self.name, &mut out);
        assert(out@ == message::fields(s, p, v, 3));
        message::put_text(5, &self.icon, &mut out);
        assert(out@ == message::fields(s, p, v, 4));
        message::put_float(6, self.min_value, &mut out);
        assert(out@ == message::fields(s, p, v, 5));
        message::put_float(7, self.max_value, &mut out);
        assert(out@ == message::fields(s, p, v, 6));
        message::put_float(8, self.step, &mut out);
        assert(out@ == message::fields(s, p, v, 7));
        message::put_flag(9, self.disabled_by_default, &mut out);
        assert(out@ == message::fields(s, p, v, 8));
        message::put_int(10, self.entity_category, &mut out);
        assert(out@ == message::fields(s, p, v, 9));
        message::put_text(11, &self.unit_of_measurement, &mut out);
        assert(out@ == message::fields(s, p, v, 10));
        message::put_int(12, self.mode, &mut out);
        assert(out@ == message::fields(s, p, v, 11));
        message::put_text(13, &self.device_class, &mut out);
        assert(out@ == message::fields(s, p, v, 12));
        message::put_uint(14, self.device_id, &mut out);
        out
    }

    fn decode(buf: &[u8]) -> (r: Result<Self, Error>) {
        let slots: Vec<Slot> = vec![
            Slot { tag: 1, kind: Kind::Text },
            Slot { tag: 2, kind: Kind::Fixed },
            Slot { tag: 3, kind: Kind::Text },
            Slot { tag: 5, kind: Kind::Text },
            Slot { tag: 6, kind: Kind::Float },
            Slot { tag: 7, kind: Kind::Float },
            Slot { tag: 8, kind: Kind::Float },
            Slot { tag: 9, kind: Kind::Flag },
            Slot { tag: 10, kind: Kind::Int },
            Slot { tag: 11, kind: Kind::Text },
            Slot { tag: 12, kind: Kind::Int },
            Slot { tag: 13, kind: Kind::Text },
            Slot { tag: 14, kind: Kind::Uint },
        ];
        assert(slots@ =~= Self::slots());
        let f = match message::find(&slots, buf) {
            Ok(f) => f,
            Err(e) => return Err(e),
        };
        let r = ListEntitiesNumberResponse {
            object_id: f.text(1),
            key: f.fixed(2),
            name: f.text(3),
            icon: f.text(5),
            min_value: f.fixed(6),
            max_value: f.fixed(7),
            step: f.fixed(8),
            disabled_by_default: f.flag(9),
            entity_category: f.signed(10),
            unit_of_measurement: f.text(11),
            mode: f.signed(12),
            device_class: f.text(13),
            device_id: f.uint(14),
        };
        proof {
            let items = f@;
            assert(message::parts_readable(Self::part(), items)) by {
                message::lemma_no_parts(slots@, Self::part(), buf@);
            }
            assert(r.values() =~= Seq::new(
                slots@.len(),
                |i: int| message::value(slots@[i], Self::part(), items),
            ));
        }
        Ok(r)
    }
}

/// A choice.
#[derive(Debug, Clone, PartialEq, Eq)]
pub struct ListEntitiesSelectResponse {
    pub object_id: String,
    pub key: u32,
    pub name: String,
    pub icon: String,
    pub options: Vec<String>,
    pub disabled_by_default: bool,
    pub entity_category: i32,
    pub device_id: u32,
}

impl ApiMessage for ListEntitiesSelectResponse {
    const ID: u32 = 52;

    open spec fn id() -> u32 {
        52
    }

    proof fn lemma_id() {
    }

    open spec fn slots() -> Seq<Slot> {
        seq![
            Slot { tag: 1, kind: Kind::Text },
            Slot { tag: 2, kind: Kind::Fixed },
            Slot { tag: 3, kind: Kind::Text },
            Slot { tag: 5, kind: Kind::Text },
            Slot { tag: 6, kind: Kind::Texts },
            Slot { tag: 7, kind: Kind::Flag },
            Slot { tag: 8, kind: Kind::Int },
            Slot { tag: 9, kind: Kind::Uint },
        ]
    }

    open spec fn part() -> Seq<Slot> {
        seq![]
    }

    open spec fn values(&self) -> Seq<Value> {
        seq![
            Value::Text(self.object_id@),
            Value::Fixed(self.key),
            Value::Text(self.name@),
            Value::Text(self.icon@),
            Value::Texts(message::chars(self.options@)),
            Value::Flag(self.disabled_by_default),
            Value::Int(self.entity_category),
            Value::Uint(self.device_id),
        ]
    }

    proof fn lemma_laid_out(&self) {
    }

    fn encode_to_vec(&self) -> (r: Vec<u8>) {
        let mut out: Vec<u8> = Vec::new();
        message::put_text(1, &self.object_id, &mut out);
        message::put_fixed(2, self.key, &mut out);
        message::put_text(3, &self.name, &mut out);
        message::put_text(5, &self.icon, &mut out);
        message::put_texts(6, &self.options, &mut out);
        message::put_flag(7, self.disabled_by_default, &mut out);
        message::put_int(8, self.entity_category, &mut out);
        message::put_uint(9, self.device_id, &mut out);
        proof {
            reveal_with_fuel(message::fields, 9);
        }
        out
    }

    fn decode(buf: &[u8]) -> (r: Result<Self, Error>) {
        let slots: Vec<Slot> = vec![
            Slot { tag: 1, kind: Kind::Text },
            Slot { tag: 2, kind: Kind::Fixed },
            Slot { tag: 3, kind: Kind::Text },
            Slot { tag: 5, kind: Kind::Text },
            Slot { tag: 6, kind: Kind::Texts },
            Slot { tag: 7, kind: Kind::Flag },
            Slot { tag: 8, kind: Kind::Int },
            Slot { tag: 9, kind: Kind::Uint },
        ];
        assert(slots@ =~= Self::slots());
        let f = match message::find(&slots, buf) {
            Ok(f) => f,
            Err(e) => return Err(e),
        };
        let r = ListEntitiesSelectResponse {
            object_id: f.text(1),
            key: f.fixed(2),
            name: f.text(3),
            icon: f.text(5),
            options: f.texts(6),
            disabled_by_default: f.flag(7),
            entity_category: f.signed(8),
            device_id: f.uint(9),
        };
        proof {
            let items = f@;
            assert(message::parts_readable(Self::part(), items)) by {
                message::lemma_no_parts(slots@, Self::part(), buf@);
            }
            assert(r.values() =~= Seq::new(
                slots@.len(),
                |i: int| message::value(slots@[i], Self::part(), items),
            ));
        }
        Ok(r)
    }
}

/// A button.
#[derive(Debug, Clone, PartialEq, Eq)]
pub struct ListEntitiesButtonResponse {
    pub object_id: String,
    pub key: u32,
    pub name: String,
    pub icon: String,
    pub disabled_by_default: bool,
    pub entity_category: i32,
    pub device_class: String,
    pub device_id: u32,
}

impl ApiMessage for ListEntitiesButtonResponse {
    const ID: u32 = 61;

    open spec fn id() -> u32 {
        61
    }

    proof fn lemma_id() {
    }

    open spec fn slots() -> Seq<Slot> {
        seq![
            Slot { tag: 1, kind: Kind::Text },
            Slot { tag: 2, kind: Kind::Fixed },
            Slot { tag: 3, kind: Kind::Text },
            Slot { tag: 5, kind: Kind::Text },
            Slot { tag: 6, kind: Kind::Flag },
            Slot { tag: 7, kind: Kind::Int },
            Slot { tag: 8, kind: Kind::Text },
            Slot { tag: 9, kind: Kind::Uint },
        ]
    }

    open spec fn part() -> Seq<Slot> {
        seq![]
    }

    open spec fn values(&self) -> Seq<Value> {
        seq![
            Value::Text(self.object_id@),
            Value::Fixed(self.key),
            Value::Text(self.name@),
            Value::Text(self.icon@),
            Value::Flag(self.disabled_by_default),
            Value::Int(self.entity_category),
            Value::Text(self.device_class@),
            Value::Uint(self.device_id),
        ]
    }

    proof fn lemma_laid_out(&self) {
    }

    fn encode_to_vec(&self) -> (r: Vec<u8>) {
        let mut out: Vec<u8> = Vec::new();
        message::put_text(1, &self.object_id, &mut out);
        message::put_fixed(2, self.key, &mut out);
        message::put_text(3, &self.name, &mut out);
        message::put_text(5, &self.icon, &mut out);
        message::put_flag(6, self.disabled_by_default, &mut out);
        message::put_int(7, self.entity_category, &mut out);
        message::put_text(8, &self.device_class, &mut out);
        message::put_uint(9, self.device_id, &mut out);
        proof {
            reveal_with_fuel(message::fields, 9);
        }
        out
    }

    fn decode(buf: &[u8]) -> (r: Result<Self, Error>) {
        let slots: Vec<Slot> = vec![
            Slot { tag: 1, kind: Kind::Text },
            Slot { tag: 2, kind: Kind::Fixed },
            Slot { tag: 3, kind: Kind::Text },
            Slot { tag: 5, kind: Kind::Text },
            Slot { tag: 6, kind: Kind::Flag },
            Slot { tag: 7, kind: Kind::Int },
            Slot { tag: 8, kind: Kind::Text },
            Slot { tag: 9, kind: Kind::Uint },
        ];
        assert(slots@ =~= Self::slots());
        let f = match message::find(&slots, buf) {
            Ok(f) => f,
            Err(e) => return Err(e),
        };
        let r = ListEntitiesButtonResponse {
            object_id: f.text(1),
            key: f.fixed(2),
            name: f.text(3),
            icon: f.text(5),
            disabled_by_default: f.flag(6),
            entity_category: f.signed(7),
            device_class: f.text(8),
            device_id: f.uint(9),
        };
        proof {
            let items = f@;
            assert(message::parts_readable(Self::part(), items)) by {
                message::lemma_no_parts(slots@, Self::part(), buf@);
            }
            assert(r.values() =~= Seq::new(
                slots@.len(),
                |i: int| message::value(slots@[i], Self::part(), items),
            ));
        }
        Ok(r)
    }
}
} // verus!
