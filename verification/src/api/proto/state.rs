//! Messages that carry a state.

use vstd::prelude::*;

use crate::api::error::Error;
use crate::api::message;
use crate::api::message::{ApiMessage, Slot, Value};
use crate::api::wire::Kind;

verus! {

/// The state of a binary sensor.
#[derive(Debug, Clone, PartialEq, Eq)]
pub struct BinarySensorStateResponse {
    pub key: u32,
    pub state: bool,
    pub missing_state: bool,
    pub device_id: u32,
}

impl ApiMessage for BinarySensorStateResponse {
    const ID: u32 = 21;

    open spec fn id() -> u32 {
        21
    }

    proof fn lemma_id() {
    }

    open spec fn slots() -> Seq<Slot> {
        seq![
            Slot { tag: 1, kind: Kind::Fixed },
            Slot { tag: 2, kind: Kind::Flag },
            Slot { tag: 3, kind: Kind::Flag },
            Slot { tag: 4, kind: Kind::Uint },
        ]
    }

    open spec fn part() -> Seq<Slot> {
        seq![]
    }

    open spec fn values(&self) -> Seq<Value> {
        seq![
            Value::Fixed(self.key),
            Value::Flag(self.state),
            Value::Flag(self.missing_state),
            Value::Uint(self.device_id),
        ]
    }

    proof fn lemma_laid_out(&self) {
    }

    fn encode_to_vec(&self) -> (r: Vec<u8>) {
        let mut out: Vec<u8> = Vec::new();
        message::put_fixed(1, self.key, &mut out);
        message::put_flag(2, self.state, &mut out);
        message::put_flag(3, self.missing_state, &mut out);
        message::put_uint(4, self.device_id, &mut out);
        proof {
            reveal_with_fuel(message::fields, 5);
        }
        out
    }

    fn decode(buf: &[u8]) -> (r: Result<Self, Error>) {
        let slots: Vec<Slot> = vec![
            Slot { tag: 1, kind: Kind::Fixed },
            Slot { tag: 2, kind: Kind::Flag },
            Slot { tag: 3, kind: Kind::Flag },
            Slot { tag: 4, kind: Kind::Uint },
        ];
        assert(slots@ =~= Self::slots());
        let f = match message::find(&slots, buf) {
            Ok(f) => f,
            Err(e) => return Err(e),
        };
        let r = BinarySensorStateResponse {
            key: f.fixed(1),
            state: f.flag(2),
            missing_state: f.flag(3),
            device_id: f.uint(4),
        };
        proof {
            let items = f@;
            assert(message::parts_readable(Self::part(), items)) by {
                message::lemma_no_parts(slots@, Self::part(), buf@);
            }
            assert(r.values() =~= Seq::new(
                slots@.len(),
                |i: int| message::value(slots@[i], Self::part(), items),
            ));
        }
        Ok(r)
    }
}

/// The state of a sensor.
#[derive(Debug, Clone, PartialEq, Eq)]
pub struct SensorStateResponse {
    pub key: u32,
    /// The four bytes of the number.
    pub state: u32,
    pub missing_state: bool,
    pub device_id: u32,
}

impl ApiMessage for SensorStateResponse {
    const ID: u32 = 25;

    open spec fn id() -> u32 {
        25
    }

    proof fn lemma_id() {
    }

    open spec fn slots() -> Seq<Slot> {
        seq![
            Slot { tag: 1, kind: Kind::Fixed },
            Slot { tag: 2, kind: Kind::Float },
            Slot { tag: 3, kind: Kind::Flag },
            Slot { tag: 4, kind: Kind::Uint },
        ]
    }

    open spec fn part() -> Seq<Slot> {
        seq![]
    }

    open spec fn values(&self) -> Seq<Value> {
        seq![
            Value::Fixed(self.key),
            Value::Float(self.state),
            Value::Flag(self.missing_state),
            Value::Uint(self.device_id),
        ]
    }

    proof fn lemma_laid_out(&self) {
    }

    fn encode_to_vec(&self) -> (r: Vec<u8>) {
        let mut out: Vec<u8> = Vec::new();
        message::put_fixed(1, self.key, &mut out);
        message::put_float(2, self.state, &mut out);
        message::put_flag(3, self.missing_state, &mut out);
        message::put_uint(4, self.device_id, &mut out);
        proof {
            reveal_with_fuel(message::fields, 5);
        }
        out
    }

    fn decode(buf: &[u8]) -> (r: Result<Self, Error>) {
        let slots: Vec<Slot> = vec![
            Slot { tag: 1, kind: Kind::Fixed },
            Slot { tag: 2, kind: Kind::Float },
            Slot { tag: 3, kind: Kind::Flag },
            Slot { tag: 4, kind: Kind::Uint },
        ];
        assert(slots@ =~= Self::slots());
        let f = match message::find(&slots, buf) {
            Ok(f) => f,
            Err(e) => return Err(e),
        };
        let r = SensorStateResponse {
            key: f.fixed(1),
            state: f.fixed(2),
            missing_state: f.flag(3),
            device_id: f.uint(4),
        };
        proof {
            let items = f@;
            assert(message::parts_readable(Self::part(), items)) by {
                message::lemma_no_parts(slots@, Self::part(), buf@);
            }
            assert(r.values() =~= Seq::new(
                slots@.len(),
                |i: int| message::value(slots@[i], Self::part(), items),
            ));
        }
        Ok(r)
    }
}

/// The state of a switch.
#[derive(Debug, Clone, PartialEq, Eq)]
pub struct SwitchStateResponse {
    pub key: u32,
    pub state: bool,
    pub device_id: u32,
}

impl ApiMessage for SwitchStateResponse {
    const ID: u32 = 26;

    open spec fn id() -> u32 {
        26
    }

    proof fn lemma_id() {
    }

    open spec fn slots() -> Seq<Slot> {
        seq![
            Slot { tag: 1, kind: Kind::Fixed },
            Slot { tag: 2, kind: Kind::Flag },
            Slot { tag: 3, kind: Kind::Uint },
        ]
    }

    open spec fn part() -> Seq<Slot> {
        seq![]
    }

    open spec fn values(&self) -> Seq<Value> {
        seq![
            Value::Fixed(self.key),
            Value::Flag(self.state),
            Value::Uint(self.device_id),
        ]
    }

    proof fn lemma_laid_out(&self) {
    }

    fn encode_to_vec(&self) -> (r: Vec<u8>) {
        let mut out: Vec<u8> = Vec::new();
        message::put_fixed(1, self.key, &mut out);
        message::put_flag(2, self.state, &mut out);
        message::put_uint(3, self.device_id, &mut out);
        proof {
            reveal_with_fuel(message::fields, 4);
        }
        out
    }

    fn decode(buf: &[u8]) -> (r: Result<Self, Error>) {
        let slots: Vec<Slot> = vec![
            Slot { tag: 1, kind: Kind::Fixed },
            Slot { tag: 2, kind: Kind::Flag },
            Slot { tag: 3, kind: Kind::Uint },
        ];
        assert(slots@ =~= Self::slots());
        let f = match message::find(&slots, buf) {
            Ok(f) => f,
            Err(e) => return Err(e),
        };
        let r = SwitchStateResponse {
            key: f.fixed(1),
            state: f.flag(2),
            device_id: f.uint(3),
        };
        proof {
            let items = f@;
            assert(message::parts_readable(Self::part(), items)) by {
                message::lemma_no_parts(slots@, Self::part(), buf@);
            }
            assert(r.values() =~= Seq::new(
                slots@.len(),
                |i: int| message::value(slots@[i], Self::part(), items),
            ));
        }
        Ok(r)
    }
}

/// The state of a text sensor.
#[derive(Debug, Clone, PartialEq, Eq)]
pub struct TextSensorStateResponse {
    pub key: u32,
    pub state: String,
    pub missing_state: bool,
    pub device_id: u32,
}

impl ApiMessage for TextSensorStateResponse {
    const ID: u32 = 27;

    open spec fn id() -> u32 {
        27
    }

    proof fn lemma_id() {
    }

    open spec fn slots() -> Seq<Slot> {
        seq![
            Slot { tag: 1, kind: Kind::Fixed },
            Slot { tag: 2, kind: Kind::Text },
            Slot { tag: 3, kind: Kind::Flag },
            Slot { tag: 4, kind: Kind::Uint },
        ]
    }

    open spec fn part() -> Seq<Slot> {
        seq![]
    }

    open spec fn values(&self) -> Seq<Value> {
        seq![
            Value::Fixed(self.key),
            Value::Text(self.state@),
            Value::Flag(self.missing_state),
            Value::Uint(self.device_id),
        ]
    }

    proof fn lemma_laid_out(&self) {
    }

    fn encode_to_vec(&self) -> (r: Vec<u8>) {
        let mut out: Vec<u8> = Vec::new();
        message::put_fixed(1, self.key, &mut out);
        message::put_text(2, &self.state, &mut out);
        message::put_flag(3, self.missing_state, &mut out);
        message::put_uint(4, self.device_id, &mut out);
        proof {
            reveal_with_fuel(message::fields, 5);
        }
        out
    }

    fn decode(buf: &[u8]) -> (r: Result<Self, Error>) {
        let slots: Vec<Slot> = vec![
            Slot { tag: 1, kind: Kind::Fixed },
            Slot { tag: 2, kind: Kind::Text },
            Slot { tag: 3, kind: Kind::Flag },
            Slot { tag: 4, kind: Kind::Uint },
        ];
        assert(slots@ =~= Self::slots());
        let f = match message::find(&slots, buf) {
            Ok(f) => f,
            Err(e) => return Err(e),
        };
        let r = TextSensorStateResponse {
            key: f.fixed(1),
            state: f.text(2),
            missing_state: f.flag(3),
            device_id: f.uint(4),
        };
        proof {
            let items = f@;
            assert(message::parts_readable(Self::part(), items)) by {
                message::lemma_no_parts(slots@, Self::part(), buf@);
            }
            assert(r.values() =~= Seq::new(
                slots@.len(),
                |i: int| message::value(slots@[i], Self::part(), items),
            ));
        }
        Ok(r)
    }
}

/// The state of a number.
#[derive(Debug, Clone, PartialEq, Eq)]
pub struct NumberStateResponse {
    pub key: u32,
    /// The four bytes of the number.
    pub state: u32,
    pub missing_state: bool,
    pub device_id: u32,
}

impl ApiMessage for NumberStateResponse {
    const ID: u32 = 50;

    open spec fn id() -> u32 {
        50
    }

    proof fn lemma_id() {
    }

    open spec fn slots() -> Seq<Slot> {
        seq![
            Slot { tag: 1, kind: Kind::Fixed },
            Slot { tag: 2, kind: Kind::Float },
            Slot { tag: 3, kind: Kind::Flag },
            Slot { tag: 4, kind: Kind::Uint },
        ]
    }

    open spec fn part() -> Seq<Slot> {
        seq![]
    }

    open spec fn values(&self) -> Seq<Value> {
        seq![
            Value::Fixed(self.key),
            Value::Float(self.state),
            Value::Flag(self.missing_state),
            Value::Uint(self.device_id),
        ]
    }

    proof fn lemma_laid_out(&self) {
    }

    fn encode_to_vec(&self) -> (r: Vec<u8>) {
        let mut out: Vec<u8> = Vec::new();
        message::put_fixed(1, self.key, &mut out);
        message::put_float(2, self.state, &mut out);
        message::put_flag(3, self.missing_state, &mut out);
        message::put_uint(4, self.device_id, &mut out);
        proof {
            reveal_with_fuel(message::fields, 5);
        }
        out
    }

    fn decode(buf: &[u8]) -> (r: Result<Self, Error>) {
        let slots: Vec<Slot> = vec![
            Slot { tag: 1, kind: Kind::Fixed },
            Slot { tag: 2, kind: Kind::Float },
            Slot { tag: 3, kind: Kind::Flag },
            Slot { tag: 4, kind: Kind::Uint },
        ];
        assert(slots@ =~= Self::slots());
        let f = match message::find(&slots, buf) {
            Ok(f) => f,
            Err(e) => return Err(e),
        };
        let r = NumberStateResponse {
            key: f.fixed(1),
            state: f.fixed(2),
            missing_state: f.flag(3),
            device_id: f.uint(4),
        };
        proof {
            let items = f@;
            assert(message::parts_readable(Self::part(), items)) by {
                message::lemma_no_parts(slots@, Self::part(), buf@);
            }
            assert(r.values() =~= Seq::new(
                slots@.len(),
                |i: int| message::value(slots@[i], Self::part(), items),
            ));
        }
        Ok(r)
    }
}

/// The state of a choice.
#[derive(Debug, Clone, PartialEq, Eq)]
pub struct SelectStateResponse {
    pub key: u32,
    pub state: String,
    pub missing_state: bool,
    pub device_id: u32,
}

impl ApiMessage for SelectStateResponse {
    const ID: u32 = 53;

    open spec fn id() -> u32 {
        53
    }

    proof fn lemma_id() {
    }

    open spec fn slots() -> Seq<Slot> {
        seq![
            Slot { tag: 1, kind: Kind::Fixed },
            Slot { tag: 2, kind: Kind::Text },
            Slot { tag: 3, kind: Kind::Flag },
            Slot { tag: 4, kind: Kind::Uint },
        ]
    }

    open spec fn part() -> Seq<Slot> {
        seq![]
    }

    open spec fn values(&self) -> Seq<Value> {
        seq![
            Value::Fixed(self.key),
            Value::Text(self.state@),
            Value::Flag(self.missing_state),
            Value::Uint(self.device_id),
        ]
    }

    proof fn lemma_laid_out(&self) {
    }

    fn encode_to_vec(&self) -> (r: Vec<u8>) {
        let mut out: Vec<u8> = Vec::new();
        message::put_fixed(1, self.key, &mut out);
        message::put_text(2, &self.state, &mut out);
        message::put_flag(3, self.missing_state, &mut out);
        message::put_uint(4, self.device_id, &mut out);
        proof {
            reveal_with_fuel(message::fields, 5);
        }
        out
    }

    fn decode(buf: &[u8]) -> (r: Result<Self, Error>) {
        let slots: Vec<Slot> = vec![
            Slot { tag: 1, kind: Kind::Fixed },
            Slot { tag: 2, kind: Kind::Text },
            Slot { tag: 3, kind: Kind::Flag },
            Slot { tag: 4, kind: Kind::Uint },
        ];
        assert(slots@ =~= Self::slots());
        let f = match message::find(&slots, buf) {
            Ok(f) => f,
            Err(e) => return Err(e),
        };
        let r = SelectStateResponse {
            key: f.fixed(1),
            state: f.text(2),
            missing_state: f.flag(3),
            device_id: f.uint(4),
        };
        proof {
            let items = f@;
            assert(message::parts_readable(Self::part(), items)) by {
                message::lemma_no_parts(slots@, Self::part(), buf@);
            }
            assert(r.values() =~= Seq::new(
                slots@.len(),
                |i: int| message::value(slots@[i], Self::part(), items),
            ));
        }
        Ok(r)
    }
}
} // verus!
