//! Messages by which a client acts on the device.

use vstd::prelude::*;

use crate::api::error::{Error, Fault};
use crate::api::message;
use crate::api::message::{ApiMessage, Fields, Slot, Value};
use crate::api::wire;
use crate::api::wire::Kind;

verus! {

/// Switch something on or off.
#[derive(Debug, Clone, PartialEq, Eq)]
pub struct SwitchCommandRequest {
    pub key: u32,
    pub state: bool,
    pub device_id: u32,
}

impl ApiMessage for SwitchCommandRequest {
    const ID: u32 = 33;

    open spec fn id() -> u32 {
        33
    }

    proof fn lemma_id() {
    }

    open spec fn slots() -> Seq<Slot> {
        seq![
            Slot { tag: 1, kind: Kind::Fixed },
            Slot { tag: 2, kind: Kind::Flag },
            Slot { tag: 3, kind: Kind::Uint },
        ]
    }

    open spec fn part() -> Seq<Slot> {
        seq![]
    }

    open spec fn values(&self) -> Seq<Value> {
        seq![
            Value::Fixed(self.key),
            Value::Flag(self.state),
            Value::Uint(self.device_id),
        ]
    }

    proof fn lemma_laid_out(&self) {
    }

    fn encode_to_vec(&self) -> (r: Vec<u8>) {
        let mut out: Vec<u8> = Vec::new();
        message::put_fixed(1, self.key, &mut out);
        message::put_flag(2, self.state, &mut out);
        message::put_uint(3, self.device_id, &mut out);
        proof {
            reveal_with_fuel(message::fields, 4);
        }
        out
    }

    fn decode(buf: &[u8]) -> (r: Result<Self, Error>) {
        let slots: Vec<Slot> = vec![
            Slot { tag: 1, kind: Kind::Fixed },
            Slot { tag: 2, kind: Kind::Flag },
            Slot { tag: 3, kind: Kind::Uint },
        ];
        assert(slots@ =~= Self::slots());
        let f = match message::find(&slots, buf) {
            Ok(f) => f,
            Err(e) => return Err(e),
        };
        let r = SwitchCommandRequest {
            key: f.fixed(1),
            state: f.flag(2),
            device_id: f.uint(3),
        };
        proof {
            let items = f@;
            assert(message::parts_readable(Self::part(), items)) by {
                message::lemma_no_parts(slots@, Self::part(), buf@);
            }
            assert(r.values() =~= Seq::new(
                slots@.len(),
                |i: int| message::value(slots@[i], Self::part(), items),
            ));
        }
        Ok(r)
    }
}

/// Set a number.
#[derive(Debug, Clone, PartialEq, Eq)]
pub struct NumberCommandRequest {
    pub key: u32,
    /// The four bytes of the number.
    pub state: u32,
    pub device_id: u32,
}

impl ApiMessage for NumberCommandRequest {
    const ID: u32 = 51;

    open spec fn id() -> u32 {
        51
    }

    proof fn lemma_id() {
    }

    open spec fn slots() -> Seq<Slot> {
        seq![
            Slot { tag: 1, kind: Kind::Fixed },
            Slot { tag: 2, kind: Kind::Float },
            Slot { tag: 3, kind: Kind::Uint },
        ]
    }

    open spec fn part() -> Seq<Slot> {
        seq![]
    }

    open spec fn values(&self) -> Seq<Value> {
        seq![
            Value::Fixed(self.key),
            Value::Float(self.state),
            Value::Uint(self.device_id),
        ]
    }

    proof fn lemma_laid_out(&self) {
    }

    fn encode_to_vec(&self) -> (r: Vec<u8>) {
        let mut out: Vec<u8> = Vec::new();
        message::put_fixed(1, self.key, &mut out);
        message::put_float(2, self.state, &mut out);
        message::put_uint(3, self.device_id, &mut out);
        proof {
            reveal_with_fuel(message::fields, 4);
        }
        out
    }

    fn decode(buf: &[u8]) -> (r: Result<Self, Error>) {
        let slots: Vec<Slot> = vec![
            Slot { tag: 1, kind: Kind::Fixed },
            Slot { tag: 2, kind: Kind::Float },
            Slot { tag: 3, kind: Kind::Uint },
        ];
        assert(slots@ =~= Self::slots());
        let f = match message::find(&slots, buf) {
            Ok(f) => f,
            Err(e) => return Err(e),
        };
        let r = NumberCommandRequest {
            key: f.fixed(1),
            state: f.fixed(2),
            device_id: f.uint(3),
        };
        proof {
            let items = f@;
            assert(message::parts_readable(Self::part(), items)) by {
                message::lemma_no_parts(slots@, Self::part(), buf@);
            }
            assert(r.values() =~= Seq::new(
                slots@.len(),
                |i: int| message::value(slots@[i], Self::part(), items),
            ));
        }
        Ok(r)
    }
}

/// Choose an option.
#[derive(Debug, Clone, PartialEq, Eq)]
pub struct SelectCommandRequest {
    pub key: u32,
    pub state: String,
    pub device_id: u32,
}

impl ApiMessage for SelectCommandRequest {
    const ID: u32 = 54;

    open spec fn id() -> u32 {
        54
    }

    proof fn lemma_id() {
    }

    open spec fn slots() -> Seq<Slot> {
        seq![
            Slot { tag: 1, kind: Kind::Fixed },
            Slot { tag: 2, kind: Kind::Text },
            Slot { tag: 3, kind: Kind::Uint },
        ]
    }

    open spec fn part() -> Seq<Slot> {
        seq![]
    }

    open spec fn values(&self) -> Seq<Value> {
        seq![
            Value::Fixed(self.key),
            Value::Text(self.state@),
            Value::Uint(self.device_id),
        ]
    }

    proof fn lemma_laid_out(&self) {
    }

    fn encode_to_vec(&self) -> (r: Vec<u8>) {
        let mut out: Vec<u8> = Vec::new();
        message::put_fixed(1, self.key, &mut out);
        message::put_text(2, &self.state, &mut out);
        message::put_uint(3, self.device_id, &mut out);
        proof {
            reveal_with_fuel(message::fields, 4);
        }
        out
    }

    fn decode(buf: &[u8]) -> (r: Result<Self, Error>) {
        let slots: Vec<Slot> = vec![
            Slot { tag: 1, kind: Kind::Fixed },
            Slot { tag: 2, kind: Kind::Text },
            Slot { tag: 3, kind: Kind::Uint },
        ];
        assert(slots@ =~= Self::slots());
        let f = match message::find(&slots, buf) {
            Ok(f) => f,
            Err(e) => return Err(e),
        };
        let r = SelectCommandRequest {
            key: f.fixed(1),
            state: f.text(2),
            device_id: f.uint(3),
        };
        proof {
            let items = f@;
            assert(message::parts_readable(Self::part(), items)) by {
                message::lemma_no_parts(slots@, Self::part(), buf@);
            }
            assert(r.values() =~= Seq::new(
                slots@.len(),
                |i: int| message::value(slots@[i], Self::part(), items),
            ));
        }
        Ok(r)
    }
}

/// Press a button.
#[derive(Debug, Clone, PartialEq, Eq)]
pub struct ButtonCommandRequest {
    pub key: u32,
    pub device_id: u32,
}

impl ApiMessage for ButtonCommandRequest {
    const ID: u32 = 62;

    open spec fn id() -> u32 {
        62
    }

    proof fn lemma_id() {
    }

    open spec fn slots() -> Seq<Slot> {
        seq![
            Slot { tag: 1, kind: Kind::Fixed },
            Slot { tag: 2, kind: Kind::Uint },
        ]
    }

    open spec fn part() -> Seq<Slot> {
        seq![]
    }

    open spec fn values(&self) -> Seq<Value> {
        seq![
            Value::Fixed(self.key),
            Value::Uint(self.device_id),
        ]
    }

    proof fn lemma_laid_out(&self) {
    }

    fn encode_to_vec(&self) -> (r: Vec<u8>) {
        let mut out: Vec<u8> = Vec::new();
        message::put_fixed(1, self.key, &mut out);
        message::put_uint(2, self.device_id, &mut out);
        proof {
            reveal_with_fuel(message::fields, 3);
        }
        out
    }

    fn decode(buf: &[u8]) -> (r: Result<Self, Error>) {
        let slots: Vec<Slot> = vec![
            Slot { tag: 1, kind: Kind::Fixed },
            Slot { tag: 2, kind: Kind::Uint },
        ];
        assert(slots@ =~= Self::slots());
        let f = match message::find(&slots, buf) {
            Ok(f) => f,
            Err(e) => return Err(e),
        };
        let r = ButtonCommandRequest {
            key: f.fixed(1),
            device_id: f.uint(2),
        };
        proof {
            let items = f@;
            assert(message::parts_readable(Self::part(), items)) by {
                message::lemma_no_parts(slots@, Self::part(), buf@);
            }
            assert(r.values() =~= Seq::new(
                slots@.len(),
                |i: int| message::value(slots@[i], Self::part(), items),
            ));
        }
        Ok(r)
    }
}

/// An argument of an action. Arrays and the later integers are skipped.
#[derive(Debug, Clone, PartialEq, Eq)]
pub struct ExecuteServiceArgument {
    pub bool: bool,
    pub legacy_int: i32,
    /// The four bytes of the number.
    pub float: u32,
    pub string: String,
}

impl ExecuteServiceArgument {
    pub open spec fn slots() -> Seq<Slot> {
        seq![
            Slot { tag: 1, kind: Kind::Flag },
            Slot { tag: 2, kind: Kind::Int },
            Slot { tag: 3, kind: Kind::Float },
            Slot { tag: 4, kind: Kind::Text },
        ]
    }

    pub open spec fn values(&self) -> Seq<Value> {
        seq![
            Value::Flag(self.bool),
            Value::Int(self.legacy_int),
            Value::Float(self.float),
            Value::Text(self.string@),
        ]
    }

    /// The message on the wire.
    pub fn encode_to_vec(&self) -> (r: Vec<u8>)
        ensures
            r@ == message::flat_fields(Self::slots(), self.values(), Self::slots().len()),
    {
        let mut out: Vec<u8> = Vec::new();
        message::put_flag(1, self.bool, &mut out);
        message::put_int(2, self.legacy_int, &mut out);
        message::put_float(3, self.float, &mut out);
        message::put_text(4, &self.string, &mut out);
        proof {
            reveal_with_fuel(message::flat_fields, 5);
        }
        out
    }

    /// The message that the bytes hold, as a part of another one.
    pub fn decode(buf: &[u8]) -> (r: Result<Self, Error>)
        ensures
            match message::flat_read(Self::slots(), buf@) {
                Some(values) => r is Ok && r->Ok_0.values() == values,
                None => r is Err && r->Err_0@ == Fault::Decode,
            },
    {
        let slots: Vec<Slot> = vec![
            Slot { tag: 1, kind: Kind::Flag },
            Slot { tag: 2, kind: Kind::Int },
            Slot { tag: 3, kind: Kind::Float },
            Slot { tag: 4, kind: Kind::Text },
        ];
        assert(slots@ =~= Self::slots());
        let f = match message::find_inside(&slots, buf) {
            Ok(f) => f,
            Err(e) => return Err(e),
        };
        let r = ExecuteServiceArgument {
            bool: f.flag(1),
            legacy_int: f.signed(2),
            float: f.fixed(3),
            string: f.text(4),
        };
        proof {
            let items = f@;
            assert(r.values() =~= Seq::new(
                slots@.len(),
                |i: int| message::flat_value(slots@[i], items),
            ));
        }
        Ok(r)
    }
}

fn put_parts_execute_service_argument(tag: u32, v: &Vec<ExecuteServiceArgument>, out: &mut Vec<u8>)
    requires
        1 <= tag <= wire::MAX_TAG,
    ensures
        final(out)@ == old(out)@ + message::part_fields(
            tag,
            ExecuteServiceArgument::slots(),
            v@.map_values(|a: ExecuteServiceArgument| a.values()),
            v@.len(),
        ),
{
    let ghost start = out@;
    let ghost parts = v@.map_values(|a: ExecuteServiceArgument| a.values());
    let mut i: usize = 0;
    assert(start =~= start + message::part_fields(tag, ExecuteServiceArgument::slots(), parts, 0));
    while i < v.len()
        invariant
            1 <= tag <= wire::MAX_TAG,
            i <= v@.len(),
            parts == v@.map_values(|a: ExecuteServiceArgument| a.values()),
            out@ == start + message::part_fields(tag, ExecuteServiceArgument::slots(), parts, i as nat),
        decreases v.len() - i,
    {
        let bytes = v[i].encode_to_vec();
        wire::put_bytes(tag, &bytes, out);
        i += 1;
        assert(out@ =~= start + message::part_fields(tag, ExecuteServiceArgument::slots(), parts, i as nat));
    }
}

fn take_parts_execute_service_argument(f: &Fields, tag: u32) -> (r: Result<Vec<ExecuteServiceArgument>, Error>)
    ensures
        match r {
            Ok(v) => {
                &&& forall|i: int|
                    0 <= i < message::parts(f@, tag).len() ==> message::flat_read(
                        ExecuteServiceArgument::slots(),
                        #[trigger] message::parts(f@, tag)[i],
                    ) is Some
                &&& v@.map_values(|a: ExecuteServiceArgument| a.values()) == message::parts(
                    f@,
                    tag,
                ).map_values(|b: Seq<u8>| message::flat_read(ExecuteServiceArgument::slots(), b)->0)
            },
            Err(e) => e@ == Fault::Decode && exists|i: int|
                0 <= i < message::parts(f@, tag).len() && message::flat_read(
                    ExecuteServiceArgument::slots(),
                    #[trigger] message::parts(f@, tag)[i],
                ) is None,
        },
{
    let all = f.parts(tag);
    let ghost bytes = message::parts(f@, tag);
    let mut out: Vec<ExecuteServiceArgument> = Vec::new();
    let mut i: usize = 0;
    while i < all.len()
        invariant
            i <= all@.len(),
            out@.len() == i,
            all@.map_values(|v: Vec<u8>| v@) == bytes,
            bytes == message::parts(f@, tag),
            forall|j: int|
                0 <= j < i ==> message::flat_read(
                    ExecuteServiceArgument::slots(),
                    #[trigger] bytes[j],
                ) == Some(out@[j].values()),
        decreases all.len() - i,
    {
        assert(bytes[i as int] == all@[i as int]@);
        match ExecuteServiceArgument::decode(all[i].as_slice()) {
            Ok(a) => out.push(a),
            Err(e) => return Err(e),
        }
        i += 1;
    }
    assert(bytes.len() == all@.len());
    assert(out@.map_values(|a: ExecuteServiceArgument| a.values()) =~= bytes.map_values(
        |b: Seq<u8>| message::flat_read(ExecuteServiceArgument::slots(), b)->0,
    ));
    Ok(out)
}

/// Call an action of the device.
#[derive(Debug, Clone, PartialEq, Eq)]
pub struct ExecuteServiceRequest {
    pub key: u32,
    pub args: Vec<ExecuteServiceArgument>,
}

impl ApiMessage for ExecuteServiceRequest {
    const ID: u32 = 42;

    open spec fn id() -> u32 {
        42
    }

    proof fn lemma_id() {
    }

    open spec fn slots() -> Seq<Slot> {
        seq![
            Slot { tag: 1, kind: Kind::Fixed },
            Slot { tag: 2, kind: Kind::Parts },
        ]
    }

    open spec fn part() -> Seq<Slot> {
        ExecuteServiceArgument::slots()
    }

    open spec fn values(&self) -> Seq<Value> {
        seq![
            Value::Fixed(self.key),
            Value::Parts(self.args@.map_values(|a: ExecuteServiceArgument| a.values())),
        ]
    }

    proof fn lemma_laid_out(&self) {
        let parts = self.args@.map_values(|a: ExecuteServiceArgument| a.values());
        assert forall|i: int| 0 <= i < parts.len() implies message::all_fit_flat(
            Self::part(),
            #[trigger] parts[i],
        ) by {
            assert(parts[i] == self.args@[i].values());
        }
    }

    fn encode_to_vec(&self) -> (r: Vec<u8>) {
        let mut out: Vec<u8> = Vec::new();
        message::put_fixed(1, self.key, &mut out);
        put_parts_execute_service_argument(2, &self.args, &mut out);
        proof {
            reveal_with_fuel(message::fields, 3);
        }
        out
    }

    fn decode(buf: &[u8]) -> (r: Result<Self, Error>) {
        let slots: Vec<Slot> = vec![
            Slot { tag: 1, kind: Kind::Fixed },
            Slot { tag: 2, kind: Kind::Parts },
        ];
        assert(slots@ =~= Self::slots());
        let f = match message::find(&slots, buf) {
            Ok(f) => f,
            Err(e) => return Err(e),
        };
        proof {
            message::lemma_only_parts(slots@, Self::part(), 2, buf@);
        }
        let args = match take_parts_execute_service_argument(&f, 2) {
            Ok(v) => v,
            Err(e) => return Err(e),
        };
        let r = ExecuteServiceRequest {
            key: f.fixed(1),
            args,
        };
        proof {
            let items = f@;
            message::lemma_only_parts(slots@, Self::part(), 2, buf@);
            assert(r.values() =~= Seq::new(
                slots@.len(),
                |i: int| message::value(slots@[i], Self::part(), items),
            ));
        }
        Ok(r)
    }
}
} // verus!
