//! Messages about the connection and the device.

use vstd::prelude::*;

use crate::api::error::Error;
use crate::api::message;
use crate::api::message::{ApiMessage, Slot, Value};
use crate::api::wire::Kind;

verus! {

/// The first message of a client.
#[derive(Debug, Clone, PartialEq, Eq)]
pub struct HelloRequest {
    pub client_info: String,
    pub api_version_major: u32,
    pub api_version_minor: u32,
}

impl ApiMessage for HelloRequest {
    const ID: u32 = 1;

    open spec fn id() -> u32 {
        1
    }

    proof fn lemma_id() {
    }

    open spec fn slots() -> Seq<Slot> {
        seq![
            Slot { tag: 1, kind: Kind::Text },
            Slot { tag: 2, kind: Kind::Uint },
            Slot { tag: 3, kind: Kind::Uint },
        ]
    }

    open spec fn part() -> Seq<Slot> {
        seq![]
    }

    open spec fn values(&self) -> Seq<Value> {
        seq![
            Value::Text(self.client_info@),
            Value::Uint(self.api_version_major),
            Value::Uint(self.api_version_minor),
        ]
    }

    proof fn lemma_laid_out(&self) {
    }

    fn encode_to_vec(&self) -> (r: Vec<u8>) {
        let mut out: Vec<u8> = Vec::new();
        message::put_text(1, &self.client_info, &mut out);
        message::put_uint(2, self.api_version_major, &mut out);
        message::put_uint(3, self.api_version_minor, &mut out);
        proof {
            reveal_with_fuel(message::fields, 4);
        }
        out
    }

    fn decode(buf: &[u8]) -> (r: Result<Self, Error>) {
        let slots: Vec<Slot> = vec![
            Slot { tag: 1, kind: Kind::Text },
            Slot { tag: 2, kind: Kind::Uint },
            Slot { tag: 3, kind: Kind::Uint },
        ];
        assert(slots@ =~= Self::slots());
        let f = match message::find(&slots, buf) {
            Ok(f) => f,
            Err(e) => return Err(e),
        };
        let r = HelloRequest {
            client_info: f.text(1),
            api_version_major: f.uint(2),
            api_version_minor: f.uint(3),
        };
        proof {
            let items = f@;
            assert(message::parts_readable(Self::part(), items)) by {
                message::lemma_no_parts(slots@, Self::part(), buf@);
            }
            assert(r.values() =~= Seq::new(
                slots@.len(),
                |i: int| message::value(slots@[i], Self::part(), items),
            ));
        }
        Ok(r)
    }
}

/// The answer to [`HelloRequest`].
#[derive(Debug, Clone, PartialEq, Eq)]
pub struct HelloResponse {
    pub api_version_major: u32,
    pub api_version_minor: u32,
    pub server_info: String,
    pub name: String,
}

impl ApiMessage for HelloResponse {
    const ID: u32 = 2;

    open spec fn id() -> u32 {
        2
    }

    proof fn lemma_id() {
    }

    open spec fn slots() -> Seq<Slot> {
        seq![
            Slot { tag: 1, kind: Kind::Uint },
            Slot { tag: 2, kind: Kind::Uint },
            Slot { tag: 3, kind: Kind::Text },
            Slot { tag: 4, kind: Kind::Text },
        ]
    }

    open spec fn part() -> Seq<Slot> {
        seq![]
    }

    open spec fn values(&self) -> Seq<Value> {
        seq![
            Value::Uint(self.api_version_major),
            Value::Uint(self.api_version_minor),
            Value::Text(self.server_info@),
            Value::Text(self.name@),
        ]
    }

    proof fn lemma_laid_out(&self) {
    }

    fn encode_to_vec(&self) -> (r: Vec<u8>) {
        let mut out: Vec<u8> = Vec::new();
        message::put_uint(1, self.api_version_major, &mut out);
        message::put_uint(2, self.api_version_minor, &mut out);
        message::put_text(3, &self.server_info, &mut out);
        message::put_text(4, &self.name, &mut out);
        proof {
            reveal_with_fuel(message::fields, 5);
        }
        out
    }

    fn decode(buf: &[u8]) -> (r: Result<Self, Error>) {
        let slots: Vec<Slot> = vec![
            Slot { tag: 1, kind: Kind::Uint },
            Slot { tag: 2, kind: Kind::Uint },
            Slot { tag: 3, kind: Kind::Text },
            Slot { tag: 4, kind: Kind::Text },
        ];
        assert(slots@ =~= Self::slots());
        let f = match message::find(&slots, buf) {
            Ok(f) => f,
            Err(e) => return Err(e),
        };
        let r = HelloResponse {
            api_version_major: f.uint(1),
            api_version_minor: f.uint(2),
            server_info: f.text(3),
            name: f.text(4),
        };
        proof {
            let items = f@;
            assert(message::parts_readable(Self::part(), items)) by {
                message::lemma_no_parts(slots@, Self::part(), buf@);
            }
            assert(r.values() =~= Seq::new(
                slots@.len(),
                |i: int| message::value(slots@[i], Self::part(), items),
            ));
        }
        Ok(r)
    }
}

/// A login with a password. Devices no longer answer it.
#[derive(Debug, Clone, PartialEq, Eq)]
pub struct AuthenticationRequest {
    pub password: String,
}

impl ApiMessage for AuthenticationRequest {
    const ID: u32 = 3;

    open spec fn id() -> u32 {
        3
    }

    proof fn lemma_id() {
    }

    open spec fn slots() -> Seq<Slot> {
        seq![
            Slot { tag: 1, kind: Kind::Text },
        ]
    }

    open spec fn part() -> Seq<Slot> {
        seq![]
    }

    open spec fn values(&self) -> Seq<Value> {
        seq![
            Value::Text(self.password@),
        ]
    }

    proof fn lemma_laid_out(&self) {
    }

    fn encode_to_vec(&self) -> (r: Vec<u8>) {
        let mut out: Vec<u8> = Vec::new();
        message::put_text(1, &self.password, &mut out);
        proof {
            reveal_with_fuel(message::fields, 2);
        }
        out
    }

    fn decode(buf: &[u8]) -> (r: Result<Self, Error>) {
        let slots: Vec<Slot> = vec![
            Slot { tag: 1, kind: Kind::Text },
        ];
        assert(slots@ =~= Self::slots());
        let f = match message::find(&slots, buf) {
            Ok(f) => f,
            Err(e) => return Err(e),
        };
        let r = AuthenticationRequest {
            password: f.text(1),
        };
        proof {
            let items = f@;
            assert(message::parts_readable(Self::part(), items)) by {
                message::lemma_no_parts(slots@, Self::part(), buf@);
            }
            assert(r.values() =~= Seq::new(
                slots@.len(),
                |i: int| message::value(slots@[i], Self::part(), items),
            ));
        }
        Ok(r)
    }
}

/// Either side wants to close the connection.
#[derive(Debug, Clone, PartialEq, Eq)]
pub struct DisconnectRequest {}

impl Default for DisconnectRequest {
    fn default() -> (r: Self)
        ensures
            r.values() == Seq::<Value>::empty(),
    {
        DisconnectRequest {  }
    }
}

impl ApiMessage for DisconnectRequest {
    const ID: u32 = 5;

    open spec fn id() -> u32 {
        5
    }

    proof fn lemma_id() {
    }

    open spec fn slots() -> Seq<Slot> {
        seq![]
    }

    open spec fn part() -> Seq<Slot> {
        seq![]
    }

    open spec fn values(&self) -> Seq<Value> {
        seq![]
    }

    proof fn lemma_laid_out(&self) {
    }

    fn encode_to_vec(&self) -> (r: Vec<u8>) {
        let out: Vec<u8> = Vec::new();
        proof {
            reveal_with_fuel(message::fields, 1);
        }
        out
    }

    fn decode(buf: &[u8]) -> (r: Result<Self, Error>) {
        let slots: Vec<Slot> = Vec::new();
        assert(slots@ =~= Self::slots());
        let f = match message::find(&slots, buf) {
            Ok(f) => f,
            Err(e) => return Err(e),
        };
        let r = DisconnectRequest {  };
        proof {
            let items = f@;
            assert(message::parts_readable(Self::part(), items)) by {
                message::lemma_no_parts(slots@, Self::part(), buf@);
            }
            assert(r.values() =~= Seq::new(
                slots@.len(),
                |i: int| message::value(slots@[i], Self::part(), items),
            ));
        }
        Ok(r)
    }
}

/// The answer to [`DisconnectRequest`].
#[derive(Debug, Clone, PartialEq, Eq)]
pub struct DisconnectResponse {}

impl Default for DisconnectResponse {
    fn default() -> (r: Self)
        ensures
            r.values() == Seq::<Value>::empty(),
    {
        DisconnectResponse {  }
    }
}

impl ApiMessage for DisconnectResponse {
    const ID: u32 = 6;

    open spec fn id() -> u32 {
        6
    }

    proof fn lemma_id() {
    }

    open spec fn slots() -> Seq<Slot> {
        seq![]
    }

    open spec fn part() -> Seq<Slot> {
        seq![]
    }

    open spec fn values(&self) -> Seq<Value> {
        seq![]
    }

    proof fn lemma_laid_out(&self) {
    }

    fn encode_to_vec(&self) -> (r: Vec<u8>) {
        let out: Vec<u8> = Vec::new();
        proof {
            reveal_with_fuel(message::fields, 1);
        }
        out
    }

    fn decode(buf: &[u8]) -> (r: Result<Self, Error>) {
        let slots: Vec<Slot> = Vec::new();
        assert(slots@ =~= Self::slots());
        let f = match message::find(&slots, buf) {
            Ok(f) => f,
            Err(e) => return Err(e),
        };
        let r = DisconnectResponse {  };
        proof {
            let items = f@;
            assert(message::parts_readable(Self::part(), items)) by {
                message::lemma_no_parts(slots@, Self::part(), buf@);
            }
            assert(r.values() =~= Seq::new(
                slots@.len(),
                |i: int| message::value(slots@[i], Self::part(), items),
            ));
        }
        Ok(r)
    }
}

/// Asks the other side for a sign of life.
#[derive(Debug, Clone, PartialEq, Eq)]
pub struct PingRequest {}

impl Default for PingRequest {
    fn default() -> (r: Self)
        ensures
            r.values() == Seq::<Value>::empty(),
    {
        PingRequest {  }
    }
}

impl ApiMessage for PingRequest {
    const ID: u32 = 7;

    open spec fn id() -> u32 {
        7
    }

    proof fn lemma_id() {
    }

    open spec fn slots() -> Seq<Slot> {
        seq![]
    }

    open spec fn part() -> Seq<Slot> {
        seq![]
    }

    open spec fn values(&self) -> Seq<Value> {
        seq![]
    }

    proof fn lemma_laid_out(&self) {
    }

    fn encode_to_vec(&self) -> (r: Vec<u8>) {
        let out: Vec<u8> = Vec::new();
        proof {
            reveal_with_fuel(message::fields, 1);
        }
        out
    }

    fn decode(buf: &[u8]) -> (r: Result<Self, Error>) {
        let slots: Vec<Slot> = Vec::new();
        assert(slots@ =~= Self::slots());
        let f = match message::find(&slots, buf) {
            Ok(f) => f,
            Err(e) => return Err(e),
        };
        let r = PingRequest {  };
        proof {
            let items = f@;
            assert(message::parts_readable(Self::part(), items)) by {
                message::lemma_no_parts(slots@, Self::part(), buf@);
            }
            assert(r.values() =~= Seq::new(
                slots@.len(),
                |i: int| message::value(slots@[i], Self::part(), items),
            ));
        }
        Ok(r)
    }
}

/// The answer to [`PingRequest`].
#[derive(Debug, Clone, PartialEq, Eq)]
pub struct PingResponse {}

impl Default for PingResponse {
    fn default() -> (r: Self)
        ensures
            r.values() == Seq::<Value>::empty(),
    {
        PingResponse {  }
    }
}

impl ApiMessage for PingResponse {
    const ID: u32 = 8;

    open spec fn id() -> u32 {
        8
    }

    proof fn lemma_id() {
    }

    open spec fn slots() -> Seq<Slot> {
        seq![]
    }

    open spec fn part() -> Seq<Slot> {
        seq![]
    }

    open spec fn values(&self) -> Seq<Value> {
        seq![]
    }

    proof fn lemma_laid_out(&self) {
    }

    fn encode_to_vec(&self) -> (r: Vec<u8>) {
        let out: Vec<u8> = Vec::new();
        proof {
            reveal_with_fuel(message::fields, 1);
        }
        out
    }

    fn decode(buf: &[u8]) -> (r: Result<Self, Error>) {
        let slots: Vec<Slot> = Vec::new();
        assert(slots@ =~= Self::slots());
        let f = match message::find(&slots, buf) {
            Ok(f) => f,
            Err(e) => return Err(e),
        };
        let r = PingResponse {  };
        proof {
            let items = f@;
            assert(message::parts_readable(Self::part(), items)) by {
                message::lemma_no_parts(slots@, Self::part(), buf@);
            }
            assert(r.values() =~= Seq::new(
                slots@.len(),
                |i: int| message::value(slots@[i], Self::part(), items),
            ));
        }
        Ok(r)
    }
}

/// Asks who the device is.
#[derive(Debug, Clone, PartialEq, Eq)]
pub struct DeviceInfoRequest {}

impl Default for DeviceInfoRequest {
    fn default() -> (r: Self)
        ensures
            r.values() == Seq::<Value>::empty(),
    {
        DeviceInfoRequest {  }
    }
}

impl ApiMessage for DeviceInfoRequest {
    const ID: u32 = 9;

    open spec fn id() -> u32 {
        9
    }

    proof fn lemma_id() {
    }

    open spec fn slots() -> Seq<Slot> {
        seq![]
    }

    open spec fn part() -> Seq<Slot> {
        seq![]
    }

    open spec fn values(&self) -> Seq<Value> {
        seq![]
    }

    proof fn lemma_laid_out(&self) {
    }

    fn encode_to_vec(&self) -> (r: Vec<u8>) {
        let out: Vec<u8> = Vec::new();
        proof {
            reveal_with_fuel(message::fields, 1);
        }
        out
    }

    fn decode(buf: &[u8]) -> (r: Result<Self, Error>) {
        let slots: Vec<Slot> = Vec::new();
        assert(slots@ =~= Self::slots());
        let f = match message::find(&slots, buf) {
            Ok(f) => f,
            Err(e) => return Err(e),
        };
        let r = DeviceInfoRequest {  };
        proof {
            let items = f@;
            assert(message::parts_readable(Self::part(), items)) by {
                message::lemma_no_parts(slots@, Self::part(), buf@);
            }
            assert(r.values() =~= Seq::new(
                slots@.len(),
                |i: int| message::value(slots@[i], Self::part(), items),
            ));
        }
        Ok(r)
    }
}

/// The answer to [`DeviceInfoRequest`].
#[derive(Debug, Clone, PartialEq, Eq)]
pub struct DeviceInfoResponse {
    pub uses_password: bool,
    pub name: String,
    pub mac_address: String,
    pub esphome_version: String,
    pub compilation_time: String,
    pub model: String,
    pub has_deep_sleep: bool,
    pub project_name: String,
    pub project_version: String,
    pub webserver_port: u32,
    pub manufacturer: String,
    pub friendly_name: String,
    pub suggested_area: String,
    pub api_encryption_supported: bool,
}

impl ApiMessage for DeviceInfoResponse {
    const ID: u32 = 10;

    open spec fn id() -> u32 {
        10
    }

    proof fn lemma_id() {
    }

    open spec fn slots() -> Seq<Slot> {
        seq![
            Slot { tag: 1, kind: Kind::Flag },
            Slot { tag: 2, kind: Kind::Text },
            Slot { tag: 3, kind: Kind::Text },
            Slot { tag: 4, kind: Kind::Text },
            Slot { tag: 5, kind: Kind::Text },
            Slot { tag: 6, kind: Kind::Text },
            Slot { tag: 7, kind: Kind::Flag },
            Slot { tag: 8, kind: Kind::Text },
            Slot { tag: 9, kind: Kind::Text },
            Slot { tag: 10, kind: Kind::Uint },
            Slot { tag: 12, kind: Kind::Text },
            Slot { tag: 13, kind: Kind::Text },
            Slot { tag: 16, kind: Kind::Text },
            Slot { tag: 19, kind: Kind::Flag },
        ]
    }

    open spec fn part() -> Seq<Slot> {
        seq![]
    }

    open spec fn values(&self) -> Seq<Value> {
        seq![
            Value::Flag(self.uses_password),
            Value::Text(self.name@),
            Value::Text(self.mac_address@),
            Value::Text(self.esphome_version@),
            Value::Text(self.compilation_time@),
            Value::Text(self.model@),
            Value::Flag(self.has_deep_sleep),
            Value::Text(self.project_name@),
            Value::Text(self.project_version@),
            Value::Uint(self.webserver_port),
            Value::Text(self.manufacturer@),
            Value::Text(self.friendly_name@),
            Value::Text(self.suggested_area@),
            Value::Flag(self.api_encryption_supported),
        ]
    }

    proof fn lemma_laid_out(&self) {
    }

    fn encode_to_vec(&self) -> (r: Vec<u8>) {
        let mut out: Vec<u8> = Vec::new();
        let ghost (s, p, v) = (Self::slots(), Self::part(), self.values());
        assert(out@ == message::fields(s, p, v, 0));
        message::put_flag(1, self.uses_password, &mut out);
        assert(out@ == message::fields(s, p, v, 1));
        message::put_text(2, &self.name, &mut out);
        assert(out@ == message::fields(s, p, v, 2));
        message::put_text(3, &self.mac_address, &mut out);
        assert(out@ == message::fields(s, p, v, 3));
        message::put_text(4, &self.esphome_version, &mut out);
        assert(out@ == message::fields(s, p, v, 4));
        message::put_text(5, &self.compilation_time, &mut out);
        assert(out@ == message::fields(s, p, v, 5));
        message::put_text(6, &self.model, &mut out);
        assert(out@ == message::fields(s, p, v, 6));
        message::put_flag(7, self.has_deep_sleep, &mut out);
        assert(out@ == message::fields(s, p, v, 7));
        message::put_text(8, &self.project_name, &mut out);
        assert(out@ == message::fields(s, p, v, 8));
        message::put_text(9, &self.project_version, &mut out);
        assert(out@ == message::fields(s, p, v, 9));
        message::put_uint(10, self.webserver_port, &mut out);
        assert(out@ == message::fields(s, p, v, 10));
        message::put_text(12, &self.manufacturer, &mut out);
        assert(out@ == message::fields(s, p, v, 11));
        message::put_text(13, &self.friendly_name, &mut out);
        assert(out@ == message::fields(s, p, v, 12));
        message::put_text(16, &self.suggested_area, &mut out);
        assert(out@ == message::fields(s, p, v, 13));
        message::put_flag(19, self.api_encryption_supported, &mut out);
        out
    }

    fn decode(buf: &[u8]) -> (r: Result<Self, Error>) {
        let slots: Vec<Slot> = vec![
            Slot { tag: 1, kind: Kind::Flag },
            Slot { tag: 2, kind: Kind::Text },
            Slot { tag: 3, kind: Kind::Text },
            Slot { tag: 4, kind: Kind::Text },
            Slot { tag: 5, kind: Kind::Text },
            Slot { tag: 6, kind: Kind::Text },
            Slot { tag: 7, kind: Kind::Flag },
            Slot { tag: 8, kind: Kind::Text },
            Slot { tag: 9, kind: Kind::Text },
            Slot { tag: 10, kind: Kind::Uint },
            Slot { tag: 12, kind: Kind::Text },
            Slot { tag: 13, kind: Kind::Text },
            Slot { tag: 16, kind: Kind::Text },
            Slot { tag: 19, kind: Kind::Flag },
        ];
        assert(slots@ =~= Self::slots());
        let f = match message::find(&slots, buf) {
            Ok(f) => f,
            Err(e) => return Err(e),
        };
        let r = DeviceInfoResponse {
            uses_password: f.flag(1),
            name: f.text(2),
            mac_address: f.text(3),
            esphome_version: f.text(4),
            compilation_time: f.text(5),
            model: f.text(6),
            has_deep_sleep: f.flag(7),
            project_name: f.text(8),
            project_version: f.text(9),
            webserver_port: f.uint(10),
            manufacturer: f.text(12),
            friendly_name: f.text(13),
            suggested_area: f.text(16),
            api_encryption_supported: f.flag(19),
        };
        proof {
            let items = f@;
            assert(message::parts_readable(Self::part(), items)) by {
                message::lemma_no_parts(slots@, Self::part(), buf@);
            }
            assert(r.values() =~= Seq::new(
                slots@.len(),
                |i: int| message::value(slots@[i], Self::part(), items),
            ));
        }
        Ok(r)
    }
}

/// Asks what the device exposes.
#[derive(Debug, Clone, PartialEq, Eq)]
pub struct ListEntitiesRequest {}

impl Default for ListEntitiesRequest {
    fn default() -> (r: Self)
        ensures
            r.values() == Seq::<Value>::empty(),
    {
        ListEntitiesRequest {  }
    }
}

impl ApiMessage for ListEntitiesRequest {
    const ID: u32 = 11;

    open spec fn id() -> u32 {
        11
    }

    proof fn lemma_id() {
    }

    open spec fn slots() -> Seq<Slot> {
        seq![]
    }

    open spec fn part() -> Seq<Slot> {
        seq![]
    }

    open spec fn values(&self) -> Seq<Value> {
        seq![]
    }

    proof fn lemma_laid_out(&self) {
    }

    fn encode_to_vec(&self) -> (r: Vec<u8>) {
        let out: Vec<u8> = Vec::new();
        proof {
            reveal_with_fuel(message::fields, 1);
        }
        out
    }

    fn decode(buf: &[u8]) -> (r: Result<Self, Error>) {
        let slots: Vec<Slot> = Vec::new();
        assert(slots@ =~= Self::slots());
        let f = match message::find(&slots, buf) {
            Ok(f) => f,
            Err(e) => return Err(e),
        };
        let r = ListEntitiesRequest {  };
        proof {
            let items = f@;
            assert(message::parts_readable(Self::part(), items)) by {
                message::lemma_no_parts(slots@, Self::part(), buf@);
            }
            assert(r.values() =~= Seq::new(
                slots@.len(),
                |i: int| message::value(slots@[i], Self::part(), items),
            ));
        }
        Ok(r)
    }
}

/// Ends the answer to [`ListEntitiesRequest`].
#[derive(Debug, Clone, PartialEq, Eq)]
pub struct ListEntitiesDoneResponse {}

impl Default for ListEntitiesDoneResponse {
    fn default() -> (r: Self)
        ensures
            r.values() == Seq::<Value>::empty(),
    {
        ListEntitiesDoneResponse {  }
    }
}

impl ApiMessage for ListEntitiesDoneResponse {
    const ID: u32 = 19;

    open spec fn id() -> u32 {
        19
    }

    proof fn lemma_id() {
    }

    open spec fn slots() -> Seq<Slot> {
        seq![]
    }

    open spec fn part() -> Seq<Slot> {
        seq![]
    }

    open spec fn values(&self) -> Seq<Value> {
        seq![]
    }

    proof fn lemma_laid_out(&self) {
    }

    fn encode_to_vec(&self) -> (r: Vec<u8>) {
        let out: Vec<u8> = Vec::new();
        proof {
            reveal_with_fuel(message::fields, 1);
        }
        out
    }

    fn decode(buf: &[u8]) -> (r: Result<Self, Error>) {
        let slots: Vec<Slot> = Vec::new();
        assert(slots@ =~= Self::slots());
        let f = match message::find(&slots, buf) {
            Ok(f) => f,
            Err(e) => return Err(e),
        };
        let r = ListEntitiesDoneResponse {  };
        proof {
            let items = f@;
            assert(message::parts_readable(Self::part(), items)) by {
                message::lemma_no_parts(slots@, Self::part(), buf@);
            }
            assert(r.values() =~= Seq::new(
                slots@.len(),
                |i: int| message::value(slots@[i], Self::part(), items),
            ));
        }
        Ok(r)
    }
}

/// Asks for all states, now and whenever they change.
#[derive(Debug, Clone, PartialEq, Eq)]
pub struct SubscribeStatesRequest {}

impl Default for SubscribeStatesRequest {
    fn default() -> (r: Self)
        ensures
            r.values() == Seq::<Value>::empty(),
    {
        SubscribeStatesRequest {  }
    }
}

impl ApiMessage for SubscribeStatesRequest {
    const ID: u32 = 20;

    open spec fn id() -> u32 {
        20
    }

    proof fn lemma_id() {
    }

    open spec fn slots() -> Seq<Slot> {
        seq![]
    }

    open spec fn part() -> Seq<Slot> {
        seq![]
    }

    open spec fn values(&self) -> Seq<Value> {
        seq![]
    }

    proof fn lemma_laid_out(&self) {
    }

    fn encode_to_vec(&self) -> (r: Vec<u8>) {
        let out: Vec<u8> = Vec::new();
        proof {
            reveal_with_fuel(message::fields, 1);
        }
        out
    }

    fn decode(buf: &[u8]) -> (r: Result<Self, Error>) {
        let slots: Vec<Slot> = Vec::new();
        assert(slots@ =~= Self::slots());
        let f = match message::find(&slots, buf) {
            Ok(f) => f,
            Err(e) => return Err(e),
        };
        let r = SubscribeStatesRequest {  };
        proof {
            let items = f@;
            assert(message::parts_readable(Self::part(), items)) by {
                message::lemma_no_parts(slots@, Self::part(), buf@);
            }
            assert(r.values() =~= Seq::new(
                slots@.len(),
                |i: int| message::value(slots@[i], Self::part(), items),
            ));
        }
        Ok(r)
    }
}

/// Asks for the log.
#[derive(Debug, Clone, PartialEq, Eq)]
pub struct SubscribeLogsRequest {
    pub level: i32,
    pub dump_config: bool,
}

impl ApiMessage for SubscribeLogsRequest {
    const ID: u32 = 28;

    open spec fn id() -> u32 {
        28
    }

    proof fn lemma_id() {
    }

    open spec fn slots() -> Seq<Slot> {
        seq![
            Slot { tag: 1, kind: Kind::Int },
            Slot { tag: 2, kind: Kind::Flag },
        ]
    }

    open spec fn part() -> Seq<Slot> {
        seq![]
    }

    open spec fn values(&self) -> Seq<Value> {
        seq![
            Value::Int(self.level),
            Value::Flag(self.dump_config),
        ]
    }

    proof fn lemma_laid_out(&self) {
    }

    fn encode_to_vec(&self) -> (r: Vec<u8>) {
        let mut out: Vec<u8> = Vec::new();
        message::put_int(1, self.level, &mut out);
        message::put_flag(2, self.dump_config, &mut out);
        proof {
            reveal_with_fuel(message::fields, 3);
        }
        out
    }

    fn decode(buf: &[u8]) -> (r: Result<Self, Error>) {
        let slots: Vec<Slot> = vec![
            Slot { tag: 1, kind: Kind::Int },
            Slot { tag: 2, kind: Kind::Flag },
        ];
        assert(slots@ =~= Self::slots());
        let f = match message::find(&slots, buf) {
            Ok(f) => f,
            Err(e) => return Err(e),
        };
        let r = SubscribeLogsRequest {
            level: f.signed(1),
            dump_config: f.flag(2),
        };
        proof {
            let items = f@;
            assert(message::parts_readable(Self::part(), items)) by {
                message::lemma_no_parts(slots@, Self::part(), buf@);
            }
            assert(r.values() =~= Seq::new(
                slots@.len(),
                |i: int| message::value(slots@[i], Self::part(), items),
            ));
        }
        Ok(r)
    }
}

/// Asks for the calls of Home Assistant actions.
#[derive(Debug, Clone, PartialEq, Eq)]
pub struct SubscribeHomeassistantServicesRequest {}

impl Default for SubscribeHomeassistantServicesRequest {
    fn default() -> (r: Self)
        ensures
            r.values() == Seq::<Value>::empty(),
    {
        SubscribeHomeassistantServicesRequest {  }
    }
}

impl ApiMessage for SubscribeHomeassistantServicesRequest {
    const ID: u32 = 34;

    open spec fn id() -> u32 {
        34
    }

    proof fn lemma_id() {
    }

    open spec fn slots() -> Seq<Slot> {
        seq![]
    }

    open spec fn part() -> Seq<Slot> {
        seq![]
    }

    open spec fn values(&self) -> Seq<Value> {
        seq![]
    }

    proof fn lemma_laid_out(&self) {
    }

    fn encode_to_vec(&self) -> (r: Vec<u8>) {
        let out: Vec<u8> = Vec::new();
        proof {
            reveal_with_fuel(message::fields, 1);
        }
        out
    }

    fn decode(buf: &[u8]) -> (r: Result<Self, Error>) {
        let slots: Vec<Slot> = Vec::new();
        assert(slots@ =~= Self::slots());
        let f = match message::find(&slots, buf) {
            Ok(f) => f,
            Err(e) => return Err(e),
        };
        let r = SubscribeHomeassistantServicesRequest {  };
        proof {
            let items = f@;
            assert(message::parts_readable(Self::part(), items)) by {
                message::lemma_no_parts(slots@, Self::part(), buf@);
            }
            assert(r.values() =~= Seq::new(
                slots@.len(),
                |i: int| message::value(slots@[i], Self::part(), items),
            ));
        }
        Ok(r)
    }
}

/// Asks which states of Home Assistant the device wants.
#[derive(Debug, Clone, PartialEq, Eq)]
pub struct SubscribeHomeAssistantStatesRequest {}

impl Default for SubscribeHomeAssistantStatesRequest {
    fn default() -> (r: Self)
        ensures
            r.values() == Seq::<Value>::empty(),
    {
        SubscribeHomeAssistantStatesRequest {  }
    }
}

impl ApiMessage for SubscribeHomeAssistantStatesRequest {
    const ID: u32 = 38;

    open spec fn id() -> u32 {
        38
    }

    proof fn lemma_id() {
    }

    open spec fn slots() -> Seq<Slot> {
        seq![]
    }

    open spec fn part() -> Seq<Slot> {
        seq![]
    }

    open spec fn values(&self) -> Seq<Value> {
        seq![]
    }

    proof fn lemma_laid_out(&self) {
    }

    fn encode_to_vec(&self) -> (r: Vec<u8>) {
        let out: Vec<u8> = Vec::new();
        proof {
            reveal_with_fuel(message::fields, 1);
        }
        out
    }

    fn decode(buf: &[u8]) -> (r: Result<Self, Error>) {
        let slots: Vec<Slot> = Vec::new();
        assert(slots@ =~= Self::slots());
        let f = match message::find(&slots, buf) {
            Ok(f) => f,
            Err(e) => return Err(e),
        };
        let r = SubscribeHomeAssistantStatesRequest {  };
        proof {
            let items = f@;
            assert(message::parts_readable(Self::part(), items)) by {
                message::lemma_no_parts(slots@, Self::part(), buf@);
            }
            assert(r.values() =~= Seq::new(
                slots@.len(),
                |i: int| message::value(slots@[i], Self::part(), items),
            ));
        }
        Ok(r)
    }
}

/// Either side asks the other for the time.
#[derive(Debug, Clone, PartialEq, Eq)]
pub struct GetTimeRequest {}

impl Default for GetTimeRequest {
    fn default() -> (r: Self)
        ensures
            r.values() == Seq::<Value>::empty(),
    {
        GetTimeRequest {  }
    }
}

impl ApiMessage for GetTimeRequest {
    const ID: u32 = 36;

    open spec fn id() -> u32 {
        36
    }

    proof fn lemma_id() {
    }

    open spec fn slots() -> Seq<Slot> {
        seq![]
    }

    open spec fn part() -> Seq<Slot> {
        seq![]
    }

    open spec fn values(&self) -> Seq<Value> {
        seq![]
    }

    proof fn lemma_laid_out(&self) {
    }

    fn encode_to_vec(&self) -> (r: Vec<u8>) {
        let out: Vec<u8> = Vec::new();
        proof {
            reveal_with_fuel(message::fields, 1);
        }
        out
    }

    fn decode(buf: &[u8]) -> (r: Result<Self, Error>) {
        let slots: Vec<Slot> = Vec::new();
        assert(slots@ =~= Self::slots());
        let f = match message::find(&slots, buf) {
            Ok(f) => f,
            Err(e) => return Err(e),
        };
        let r = GetTimeRequest {  };
        proof {
            let items = f@;
            assert(message::parts_readable(Self::part(), items)) by {
                message::lemma_no_parts(slots@, Self::part(), buf@);
            }
            assert(r.values() =~= Seq::new(
                slots@.len(),
                |i: int| message::value(slots@[i], Self::part(), items),
            ));
        }
        Ok(r)
    }
}

/// The answer to [`GetTimeRequest`].
#[derive(Debug, Clone, PartialEq, Eq)]
pub struct GetTimeResponse {
    pub epoch_seconds: u32,
    pub timezone: String,
}

impl ApiMessage for GetTimeResponse {
    const ID: u32 = 37;

    open spec fn id() -> u32 {
        37
    }

    proof fn lemma_id() {
    }

    open spec fn slots() -> Seq<Slot> {
        seq![
            Slot { tag: 1, kind: Kind::Fixed },
            Slot { tag: 2, kind: Kind::Text },
        ]
    }

    open spec fn part() -> Seq<Slot> {
        seq![]
    }

    open spec fn values(&self) -> Seq<Value> {
        seq![
            Value::Fixed(self.epoch_seconds),
            Value::Text(self.timezone@),
        ]
    }

    proof fn lemma_laid_out(&self) {
    }

    fn encode_to_vec(&self) -> (r: Vec<u8>) {
        let mut out: Vec<u8> = Vec::new();
        message::put_fixed(1, self.epoch_seconds, &mut out);
        message::put_text(2, &self.timezone, &mut out);
        proof {
            reveal_with_fuel(message::fields, 3);
        }
        out
    }

    fn decode(buf: &[u8]) -> (r: Result<Self, Error>) {
        let slots: Vec<Slot> = vec![
            Slot { tag: 1, kind: Kind::Fixed },
            Slot { tag: 2, kind: Kind::Text },
        ];
        assert(slots@ =~= Self::slots());
        let f = match message::find(&slots, buf) {
            Ok(f) => f,
            Err(e) => return Err(e),
        };
        let r = GetTimeResponse {
            epoch_seconds: f.fixed(1),
            timezone: f.text(2),
        };
        proof {
            let items = f@;
            assert(message::parts_readable(Self::part(), items)) by {
                message::lemma_no_parts(slots@, Self::part(), buf@);
            }
            assert(r.values() =~= Seq::new(
                slots@.len(),
                |i: int| message::value(slots@[i], Self::part(), items),
            ));
        }
        Ok(r)
    }
}
} // verus!
