//! One client connection's protocol state, free of any I/O. Feed it bytes, get back events.

use vstd::prelude::*;

use crate::api::codec::{Codec, Coder};
use crate::api::entity;
use crate::api::entity::{Reading, State};
use crate::api::error::{Error, Fault};
use crate::api::frame::{Raw, RawMessage};
use crate::api::logs;
use crate::api::message;
use crate::api::message::{ApiMessage, Value};
use crate::api::noise;
use crate::api::noise::Got;
use crate::api::proto;
use crate::api::server;
use crate::api::server::{Shared, World};

verus! {

pub const API_VERSION_MAJOR: u32 = 1;

pub const API_VERSION_MINOR: u32 = 16;

/// Something the application must act on.
#[derive(Debug)]
pub enum Command {
    Switch { key: u32, on: bool },
    /// `value` is the four bytes of the number.
    Number { key: u32, value: u32 },
    Select { key: u32, option: String },
    Button { key: u32 },
    Service { key: u32, args: Vec<proto::ExecuteServiceArgument> },
    /// HA answered our `GetTimeRequest`.
    Time { epoch_seconds: u32, timezone: String },
    /// A client finished its handshake and subscribed to states (emitted by the runner).
    ClientSubscribed { client_info: String },
    /// A connection ended (emitted by the runner).
    ClientGone { subscribed: bool },
}

/// A [`Command`], as contracts speak of it.
pub enum Order {
    Switch { key: u32, on: bool },
    Number { key: u32, value: u32 },
    Select { key: u32, option: Seq<char> },
    Button { key: u32 },
    Service { key: u32, args: Seq<Seq<Value>> },
    Time { epoch_seconds: u32, timezone: Seq<char> },
    ClientSubscribed { client_info: Seq<char> },
    ClientGone { subscribed: bool },
}

impl View for Command {
    type V = Order;

    open spec fn view(&self) -> Order {
        match self {
            Command::Switch { key, on } => Order::Switch { key: *key, on: *on },
            Command::Number { key, value } => Order::Number { key: *key, value: *value },
            Command::Select { key, option } => Order::Select { key: *key, option: option@ },
            Command::Button { key } => Order::Button { key: *key },
            Command::Service { key, args } => Order::Service {
                key: *key,
                args: args@.map_values(|a: proto::ExecuteServiceArgument| a.values()),
            },
            Command::Time { epoch_seconds, timezone } => Order::Time {
                epoch_seconds: *epoch_seconds,
                timezone: timezone@,
            },
            Command::ClientSubscribed { client_info } => Order::ClientSubscribed {
                client_info: client_info@,
            },
            Command::ClientGone { subscribed } => Order::ClientGone { subscribed: *subscribed },
        }
    }
}

#[derive(Debug)]
pub enum Event {
    /// Bytes to write to the peer.
    Send(Vec<u8>),
    /// Client identified itself (`HelloRequest.client_info`).
    Hello(String),
    /// Client subscribed to state updates.
    Subscribed,
    Command(Command),
    /// Close the connection after flushing.
    Disconnect,
    /// Protocol failure: flush earlier `Send` events (e.g. a Noise rejection), then close.
    Error(Error),
}

/// An [`Event`], as contracts speak of it.
pub enum Happening {
    Send(Seq<u8>),
    Hello(Seq<char>),
    Subscribed,
    Command(Order),
    Disconnect,
    Error(Fault),
}

impl View for Event {
    type V = Happening;

    open spec fn view(&self) -> Happening {
        match self {
            Event::Send(b) => Happening::Send(b@),
            Event::Hello(s) => Happening::Hello(s@),
            Event::Subscribed => Happening::Subscribed,
            Event::Command(c) => Happening::Command(c@),
            Event::Disconnect => Happening::Disconnect,
            Event::Error(e) => Happening::Error(e@),
        }
    }
}

/// Events, as contracts speak of them.
pub open spec fn happenings(v: Seq<Event>) -> Seq<Happening> {
    v.map_values(|e: Event| e@)
}

#[derive(Debug, Clone, Copy, PartialEq, Eq, Structural)]
pub enum Phase {
    AwaitHello,
    Connected,
    Closing,
}

pub struct Session {
    codec: Codec,
    buf: Vec<u8>,
    phase: Phase,
    subscribed: bool,
    log_level: i32,
    client_info: String,
}

/// A [`Session`], as contracts speak of it.
pub struct Talk {
    pub coder: Coder,
    /// Received bytes that have not been worked off.
    pub buf: Seq<u8>,
    pub phase: Phase,
    pub subscribed: bool,
    /// Up to which level the client wants the log, 0 if not at all.
    pub log_level: i32,
    pub client_info: Seq<char>,
}

impl View for Session {
    type V = Talk;

    closed spec fn view(&self) -> Talk {
        Talk {
            coder: self.codec@,
            buf: self.buf@,
            phase: self.phase,
            subscribed: self.subscribed,
            log_level: self.log_level,
            client_info: self.client_info@,
        }
    }
}

/// What became of something: the next state, what happened, and what went wrong in the end.
pub struct Reply {
    pub talk: Talk,
    pub events: Seq<Happening>,
    pub fault: Option<Fault>,
}

impl Reply {
    /// This, and then `next`, unless this went wrong.
    pub open spec fn and(self, next: Reply) -> Reply {
        if self.fault is Some {
            self
        } else {
            Reply { talk: next.talk, events: self.events + next.events, fault: next.fault }
        }
    }
}

/// The messages that carry the first `n` states.
pub open spec fn reports(world: World, n: nat) -> Seq<Raw>
    decreases n,
{
    if n == 0 {
        seq![]
    } else {
        let rest = reports(world, (n - 1) as nat);
        let (key, state) = world.states[n - 1];
        match entity::find(world.entities, key) {
            Some(e) => match e.report(state) {
                Some(m) => rest.push(m),
                None => rest,
            },
            None => rest,
        }
    }
}

/// The messages that describe the entities.
pub open spec fn listings(world: World) -> Seq<Raw> {
    world.entities.map_values(|e: entity::Entity| e.listing())
}

/// A message without fields.
pub open spec fn bare(id: u32) -> Raw {
    Raw { id, payload: seq![] }
}

/// The values of a message of type `M`, if the payload is one.
pub open spec fn payload_of<M: ApiMessage>(msg: Raw) -> Option<Seq<Value>> {
    message::read(M::slots(), M::part(), msg.payload)
}

impl Talk {
    pub open spec fn nothing(self) -> Reply {
        Reply { talk: self, events: seq![], fault: None }
    }

    pub open spec fn wrong(self, fault: Fault) -> Reply {
        Reply { talk: self, events: seq![], fault: Some(fault) }
    }

    pub open spec fn tell(self, event: Happening) -> Reply {
        Reply { talk: self, events: seq![event], fault: None }
    }

    /// A message is sent.
    pub open spec fn sent(self, msg: Raw) -> Reply {
        let (coder, wire) = self.coder.encoded(msg);
        match wire {
            Ok(b) => Talk { coder, ..self }.tell(Happening::Send(b)),
            Err(f) => Talk { coder, ..self }.wrong(f),
        }
    }

    /// The first `n` messages are sent in order, up to the first that cannot be.
    pub open spec fn sent_all(self, msgs: Seq<Raw>, n: nat) -> Reply
        decreases n,
    {
        if n == 0 {
            self.nothing()
        } else {
            let before = self.sent_all(msgs, (n - 1) as nat);
            before.and(before.talk.sent(msgs[n - 1]))
        }
    }

    /// The first message of a client.
    pub open spec fn greeted(self, world: World, msg: Raw) -> Reply {
        if msg.id != proto::HelloRequest::id() {
            self.wrong(Fault::Frame("first message must be HelloRequest"@))
        } else {
            match payload_of::<proto::HelloRequest>(msg) {
                None => self.wrong(Fault::Decode),
                Some(v) => {
                    let info = v[0]->Text_0;
                    let t = Talk { client_info: info, phase: Phase::Connected, ..self };
                    let hello = t.sent(
                        entity::raw_of::<proto::HelloResponse>(
                            seq![
                                Value::Uint(API_VERSION_MAJOR),
                                Value::Uint(API_VERSION_MINOR),
                                Value::Text(world.server_info),
                                Value::Text(world.device.name@),
                            ],
                        ),
                    );
                    hello.and(hello.talk.tell(Happening::Hello(info)))
                },
            }
        }
    }

    pub open spec fn closing(self) -> Talk {
        Talk { phase: Phase::Closing, ..self }
    }

    /// A client subscribes: it gets all states, and is asked for the time.
    pub open spec fn subscribe(self, world: World) -> Reply {
        let msgs = reports(world, world.states.len());
        let states = Talk { subscribed: true, ..self }.sent_all(msgs, msgs.len());
        let known = states.and(states.talk.tell(Happening::Subscribed));
        known.and(known.talk.sent(bare(proto::GetTimeRequest::id())))
    }

    /// A client subscribes to the log.
    pub open spec fn log_subscribed(self, msg: Raw) -> Reply {
        match payload_of::<proto::SubscribeLogsRequest>(msg) {
            Some(v) => Talk { log_level: v[0]->Int_0, ..self }.nothing(),
            None => self.wrong(Fault::Decode),
        }
    }

    /// A command from the client.
    pub open spec fn commanded(self, msg: Raw) -> Reply {
        let order = if msg.id == proto::SwitchCommandRequest::id() {
            match payload_of::<proto::SwitchCommandRequest>(msg) {
                Some(v) => Some(Order::Switch { key: v[0]->Fixed_0, on: v[1]->Flag_0 }),
                None => None,
            }
        } else if msg.id == proto::NumberCommandRequest::id() {
            match payload_of::<proto::NumberCommandRequest>(msg) {
                Some(v) => Some(Order::Number { key: v[0]->Fixed_0, value: v[1]->Float_0 }),
                None => None,
            }
        } else if msg.id == proto::SelectCommandRequest::id() {
            match payload_of::<proto::SelectCommandRequest>(msg) {
                Some(v) => Some(Order::Select { key: v[0]->Fixed_0, option: v[1]->Text_0 }),
                None => None,
            }
        } else if msg.id == proto::ButtonCommandRequest::id() {
            match payload_of::<proto::ButtonCommandRequest>(msg) {
                Some(v) => Some(Order::Button { key: v[0]->Fixed_0 }),
                None => None,
            }
        } else if msg.id == proto::ExecuteServiceRequest::id() {
            match payload_of::<proto::ExecuteServiceRequest>(msg) {
                Some(v) => Some(Order::Service { key: v[0]->Fixed_0, args: v[1]->Parts_0 }),
                None => None,
            }
        } else {
            match payload_of::<proto::GetTimeResponse>(msg) {
                Some(v) => Some(
                    Order::Time { epoch_seconds: v[0]->Fixed_0, timezone: v[1]->Text_0 },
                ),
                None => None,
            }
        };
        match order {
            Some(o) => self.tell(Happening::Command(o)),
            None => self.wrong(Fault::Decode),
        }
    }

    /// A message is handled. `now` is the Unix time, 0 if unknown.
    #[verifier::opaque]
    pub open spec fn handled(self, world: World, msg: Raw, now: u32) -> Reply {
        let id = msg.id;
        if self.phase == Phase::AwaitHello {
            self.greeted(world, msg)
        } else if id == proto::PingRequest::id() {
            self.sent(bare(proto::PingResponse::id()))
        } else if id == proto::DisconnectRequest::id() {
            let bye = self.sent(bare(proto::DisconnectResponse::id()));
            bye.and(bye.talk.closing().tell(Happening::Disconnect))
        } else if id == proto::DisconnectResponse::id() {
            self.closing().tell(Happening::Disconnect)
        } else if id == proto::DeviceInfoRequest::id() {
            self.sent(entity::raw_of::<proto::DeviceInfoResponse>(world.device.info()))
        } else if id == proto::ListEntitiesRequest::id() {
            let msgs = listings(world);
            let list = self.sent_all(msgs, msgs.len());
            list.and(list.talk.sent(bare(proto::ListEntitiesDoneResponse::id())))
        } else if id == proto::SubscribeStatesRequest::id() {
            self.subscribe(world)
        } else if id == proto::SubscribeLogsRequest::id() {
            self.log_subscribed(msg)
        } else if is_command(id) {
            self.commanded(msg)
        } else if id == proto::GetTimeRequest::id() {
            self.sent(
                entity::raw_of::<proto::GetTimeResponse>(
                    seq![Value::Fixed(now), Value::Text(seq![])],
                ),
            )
        } else if world.capabilities is Some && id == world.capabilities->0.request && !is_ignored(
            id,
        ) {
            self.sent(bare(world.capabilities->0.response))
        } else {
            self.nothing()
        }
    }

    /// The received bytes are worked off.
    pub open spec fn ran(self, world: World, now: u32) -> (Talk, Seq<Happening>)
        decreases self.buf.len(),
    {
        let (coder, rest, got) = self.coder.decoded(self.buf);
        let shown = coder.pending().map_values(|f: Seq<u8>| Happening::Send(f));
        let next = Talk { coder: coder.flushed(), buf: rest, ..self };
        match got {
            Got::More => (next, shown),
            Got::Bad(f) => (next, shown.push(Happening::Error(f))),
            Got::Message(m) => {
                let h = next.handled(world, m, now);
                match h.fault {
                    Some(f) => (h.talk, (shown + h.events).push(Happening::Error(f))),
                    None => if h.talk.phase == Phase::Closing || h.talk.buf.len()
                        >= self.buf.len() {
                        (h.talk, shown + h.events)
                    } else {
                        let more = h.talk.ran(world, now);
                        (more.0, shown + h.events + more.1)
                    },
                }
            },
        }
    }

    /// Bytes arrive.
    pub open spec fn fed(self, data: Seq<u8>) -> Talk {
        Talk { buf: self.buf + data, ..self }
    }
}

/// The message tells the application to do something.
pub open spec fn is_command(id: u32) -> bool {
    id == proto::SwitchCommandRequest::id() || id == proto::NumberCommandRequest::id() || id
        == proto::SelectCommandRequest::id() || id == proto::ButtonCommandRequest::id() || id
        == proto::ExecuteServiceRequest::id() || id == proto::GetTimeResponse::id()
}

/// Messages that are not answered. The login was removed in ESPHome 2026.1; aioesphomeapi still
/// sends it with `login=True` and never waits for a reply. The subscriptions are not served: HA
/// tolerates silence on these.
pub open spec fn is_ignored(id: u32) -> bool {
    id == proto::AuthenticationRequest::id() || id == proto::PingResponse::id() || id
        == proto::SubscribeHomeassistantServicesRequest::id() || id == proto::SubscribeHomeAssistantStatesRequest::id()
}

/// The most messages that handling one can send.
pub open spec fn cost(world: World) -> nat {
    world.entities.len() + world.states.len() + 2
}

proof fn lemma_encoded_sends(c: Coder, msg: Raw, n: nat)
    requires
        c.can_send(n + 1),
    ensures
        c.encoded(msg).0.can_send(n),
{
}

proof fn lemma_sent_all(t: Talk, msgs: Seq<Raw>, n: nat, m: nat)
    requires
        t.coder.can_send(n + m),
    ensures
        t.sent_all(msgs, n).talk.coder.can_send(m),
        t.sent_all(msgs, n).talk == (Talk { coder: t.sent_all(msgs, n).talk.coder, ..t }),
    decreases n,
{
    if n > 0 {
        lemma_sent_all(t, msgs, (n - 1) as nat, m + 1);
        let before = t.sent_all(msgs, (n - 1) as nat);
        lemma_encoded_sends(before.talk.coder, msgs[n - 1], m);
    }
}

fn encode_bare<M: ApiMessage>(m: &M) -> (r: RawMessage)
    requires
        M::slots() == Seq::<message::Slot>::empty(),
    ensures
        r@ == bare(M::id()),
{
    RawMessage::encode(m)
}

impl Session {
    pub fn new(codec: Codec) -> (r: Session)
        ensures
            r@ == (Talk {
                coder: codec@,
                buf: seq![],
                phase: Phase::AwaitHello,
                subscribed: false,
                log_level: 0,
                client_info: seq![],
            }),
    {
        Session {
            codec,
            buf: Vec::new(),
            phase: Phase::AwaitHello,
            subscribed: false,
            log_level: 0,
            client_info: String::new(),
        }
    }

    pub fn subscribed(&self) -> (r: bool)
        ensures
            r == self@.subscribed,
    {
        self.subscribed
    }

    pub fn client_info(&self) -> (r: &str)
        ensures
            r@ == self@.client_info,
    {
        self.client_info.as_str()
    }

    fn send(&mut self, msg: &RawMessage, events: &mut Vec<Event>) -> (r: Result<(), Error>)
        requires
            old(self)@.coder.can_send(1),
        ensures
            ({
                let reply = old(self)@.sent(msg@);
                &&& final(self)@ == reply.talk
                &&& happenings(final(events)@) == happenings(old(events)@) + reply.events
                &&& match reply.fault {
                    Some(f) => r is Err && r->Err_0@ == f,
                    None => r is Ok,
                }
            }),
    {
        match self.codec.encode(msg) {
            Ok(bytes) => {
                events.push(Event::Send(bytes));
                assert(happenings(events@) =~= happenings(old(events)@) + seq![
                    Happening::Send(bytes@),
                ]);
                Ok(())
            },
            Err(e) => {
                assert(happenings(events@) =~= happenings(old(events)@) + seq![]);
                Err(e)
            },
        }
    }

    /// Wire bytes for a state change, if this client is subscribed.
    pub fn state_update(&mut self, shared: &Shared, key: u32, state: &State) -> (r: Result<
        Option<Vec<u8>>,
        Error,
    >)
        requires
            old(self)@.coder.can_send(1),
        ensures
            match update_message(old(self)@, shared@, key, state@) {
                None => r is Ok && r->Ok_0 is None && final(self)@ == old(self)@,
                Some(m) => {
                    let (coder, wire) = old(self)@.coder.encoded(m);
                    &&& final(self)@ == (Talk { coder, ..old(self)@ })
                    &&& match wire {
                        Ok(w) => r is Ok && r->Ok_0 is Some && (r->Ok_0->0)@ == w,
                        Err(f) => r is Err && r->Err_0@ == f,
                    }
                },
            },
    {
        if !self.subscribed {
            return Ok(None);
        }
        let msg = match shared.registry.get(key) {
            Some(e) => e.state_message(state),
            None => None,
        };
        match msg {
            Some(m) => match self.codec.encode(&m) {
                Ok(bytes) => Ok(Some(bytes)),
                Err(e) => Err(e),
            },
            None => Ok(None),
        }
    }

    /// Wire bytes for a log line, if this client subscribed to lines of its level.
    pub fn log_line(&mut self, level: i32, line: &Vec<u8>) -> (r: Result<Option<Vec<u8>>, Error>)
        requires
            old(self)@.coder.can_send(1),
        ensures
            if logs::passes(old(self)@.log_level, level) {
                let (coder, wire) = old(self)@.coder.encoded(logs::log_raw(level, line@));
                &&& final(self)@ == (Talk { coder, ..old(self)@ })
                &&& match wire {
                    Ok(w) => r is Ok && r->Ok_0 is Some && (r->Ok_0->0)@ == w,
                    Err(f) => r is Err && r->Err_0@ == f,
                }
            } else {
                r is Ok && r->Ok_0 is None && final(self)@ == old(self)@
            },
    {
        if self.log_level > 0 && level <= self.log_level {
            let m = logs::log_message(level, line);
            match self.codec.encode(&m) {
                Ok(bytes) => Ok(Some(bytes)),
                Err(e) => Err(e),
            }
        } else {
            Ok(None)
        }
    }

    /// Wire bytes for a keepalive ping.
    pub fn ping_request(&mut self) -> (r: Result<Vec<u8>, Error>)
        requires
            old(self)@.coder.can_send(1),
        ensures
            encodes(old(self)@, bare(proto::PingRequest::id()), final(self)@, r),
    {
        let m = encode_bare(&proto::PingRequest {  });
        self.codec.encode(&m)
    }

    /// Wire bytes asking HA for the current time.
    pub fn get_time_request(&mut self) -> (r: Result<Vec<u8>, Error>)
        requires
            old(self)@.coder.can_send(1),
        ensures
            encodes(old(self)@, bare(proto::GetTimeRequest::id()), final(self)@, r),
    {
        let m = encode_bare(&proto::GetTimeRequest {  });
        self.codec.encode(&m)
    }

    /// Send messages in order, up to the first that cannot be.
    fn send_all(&mut self, msgs: &Vec<RawMessage>, events: &mut Vec<Event>) -> (r: Result<
        (),
        Error,
    >)
        requires
            old(self)@.coder.can_send(msgs@.len()),
        ensures
            ({
                let reply = old(self)@.sent_all(raws(msgs@), msgs@.len());
                &&& final(self)@ == reply.talk
                &&& happenings(final(events)@) == happenings(old(events)@) + reply.events
                &&& match reply.fault {
                    Some(f) => r is Err && r->Err_0@ == f,
                    None => r is Ok,
                }
            }),
    {
        let ghost t = self@;
        let ghost said = happenings(events@);
        let ghost all = raws(msgs@);
        let mut i: usize = 0;
        assert(said =~= said + t.sent_all(all, 0).events);
        while i < msgs.len()
            invariant
                i <= msgs@.len(),
                all == raws(msgs@),
                t == old(self)@,
                said == happenings(old(events)@),
                t.coder.can_send(msgs@.len()),
                self@ == t.sent_all(all, i as nat).talk,
                t.sent_all(all, i as nat).fault is None,
                happenings(events@) == said + t.sent_all(all, i as nat).events,
            decreases msgs.len() - i,
        {
            proof {
                lemma_sent_all(t, all, i as nat, (msgs@.len() - i) as nat);
            }
            let ghost before = happenings(events@);
            let r = self.send(&msgs[i], events);
            proof {
                let one = t.sent_all(all, i as nat).talk.sent(all[i as int]);
                assert(before + one.events =~= said + (t.sent_all(all, i as nat).events
                    + one.events));
            }
            match r {
                Ok(()) => {},
                Err(e) => {
                    proof {
                        lemma_sent_all_stops(t, all, (i + 1) as nat, all.len());
                    }
                    return Err(e);
                },
            }
            i += 1;
        }
        Ok(())
    }

    fn handle_hello(&mut self, shared: &Shared, msg: &RawMessage, events: &mut Vec<Event>) -> (r:
        Result<(), Error>)
        requires
            old(self)@.coder.can_send(1),
        ensures
            replies(
                old(self)@.greeted(shared@, msg@),
                final(self)@,
                happenings(old(events)@),
                happenings(final(events)@),
                r,
            ),
    {
        let ghost said = happenings(events@);
        proof {
            proto::lemma_ids();
        }
        if msg.id != proto::HelloRequest::ID {
            assert(said =~= said + seq![]);
            return Err(Error::Frame("first message must be HelloRequest"));
        }
        let hello: proto::HelloRequest = match msg.decode() {
            Ok(h) => h,
            Err(e) => {
                assert(said =~= said + seq![]);
                return Err(e);
            },
        };
        self.client_info = hello.client_info.clone();
        self.phase = Phase::Connected;
        let resp = proto::HelloResponse {
            api_version_major: API_VERSION_MAJOR,
            api_version_minor: API_VERSION_MINOR,
            server_info: shared.server_info.clone(),
            name: shared.device.name.clone(),
        };
        let raw = RawMessage::encode(&resp);
        let ghost mid = self@;
        match self.send(&raw, events) {
            Ok(()) => {},
            Err(e) => return Err(e),
        }
        let ghost sent = happenings(events@);
        events.push(Event::Hello(hello.client_info));
        proof {
            let info = hello.client_info@;
            assert(hello.values()[0] == Value::Text(info));
            assert(happenings(events@) =~= sent.push(Happening::Hello(info)));
            assert(happenings(events@) =~= said + (mid.sent(raw@).events + seq![
                Happening::Hello(info),
            ]));
        }
        Ok(())
    }

    fn handle_command(&mut self, msg: &RawMessage, events: &mut Vec<Event>) -> (r: Result<
        (),
        Error,
    >)
        requires
            is_command(msg@.id),
        ensures
            replies(
                old(self)@.commanded(msg@),
                final(self)@,
                happenings(old(events)@),
                happenings(final(events)@),
                r,
            ),
    {
        let ghost said = happenings(events@);
        let command = match parse_command(msg) {
            Ok(c) => c,
            Err(e) => {
                assert(said =~= said + seq![]);
                return Err(e);
            },
        };
        events.push(Event::Command(command));
        assert(happenings(events@) =~= said + seq![Happening::Command(command@)]);
        Ok(())
    }

    fn handle_list(&mut self, shared: &Shared, events: &mut Vec<Event>) -> (r: Result<(), Error>)
        requires
            old(self)@.coder.can_send(cost(shared@)),
        ensures
            replies(
                ({
                    let msgs = listings(shared@);
                    let list = old(self)@.sent_all(msgs, msgs.len());
                    list.and(list.talk.sent(bare(proto::ListEntitiesDoneResponse::id())))
                }),
                final(self)@,
                happenings(old(events)@),
                happenings(final(events)@),
                r,
            ),
    {
        let ghost t = self@;
        let ghost said = happenings(events@);
        let entities = shared.registry.iter();
        let mut msgs: Vec<RawMessage> = Vec::new();
        let mut i: usize = 0;
        while i < entities.len()
            invariant
                i <= entities@.len(),
                entities@ == shared@.entities,
                msgs@.len() == i,
                forall|j: int| 0 <= j < i ==> (#[trigger] msgs@[j])@ == entities@[j].listing(),
            decreases entities.len() - i,
        {
            msgs.push(entities[i].list_message());
            i += 1;
        }
        proof {
            assert(raws(msgs@) =~= listings(shared@));
            lemma_can_send_less(t.coder, cost(shared@), msgs@.len());
            lemma_can_send_less(t.coder, cost(shared@), msgs@.len() + 1);
            lemma_sent_all(t, raws(msgs@), msgs@.len(), 1);
        }
        match self.send_all(&msgs, events) {
            Ok(()) => {},
            Err(e) => return Err(e),
        }
        let done = encode_bare(&proto::ListEntitiesDoneResponse {  });
        let r = self.send(&done, events);
        proof {
            let list = t.sent_all(raws(msgs@), msgs@.len());
            assert(happenings(events@) =~= said + (list.events + list.talk.sent(done@).events));
        }
        r
    }

    fn handle_subscribe(&mut self, shared: &Shared, events: &mut Vec<Event>) -> (r: Result<
        (),
        Error,
    >)
        requires
            old(self)@.coder.can_send(cost(shared@)),
        ensures
            replies(
                old(self)@.subscribe(shared@),
                final(self)@,
                happenings(old(events)@),
                happenings(final(events)@),
                r,
            ),
    {
        self.subscribed = true;
        let ghost t = self@;
        let ghost said = happenings(events@);
        let snapshot = shared.snapshot();
        let mut msgs: Vec<RawMessage> = Vec::new();
        let mut i: usize = 0;
        assert(raws(msgs@) =~= reports(shared@, 0));
        while i < snapshot.len()
            invariant
                i <= snapshot@.len(),
                server::readings(snapshot@) == shared@.states,
                msgs@.len() <= i,
                raws(msgs@) == reports(shared@, i as nat),
            decreases snapshot.len() - i,
        {
            assert(shared@.states[i as int] == (snapshot@[i as int].0, snapshot@[i as int].1@));
            let ghost before = msgs@;
            let m = match shared.registry.get(snapshot[i].0) {
                Some(e) => e.state_message(&snapshot[i].1),
                None => None,
            };
            if let Some(m) = m {
                msgs.push(m);
                assert(raws(msgs@) =~= raws(before).push(m@));
            }
            i += 1;
        }
        assert(snapshot@.len() == shared@.states.len());
        proof {
            lemma_can_send_less(t.coder, cost(shared@), msgs@.len());
            lemma_can_send_less(t.coder, cost(shared@), msgs@.len() + 1);
            lemma_sent_all(t, raws(msgs@), msgs@.len(), 1);
        }
        match self.send_all(&msgs, events) {
            Ok(()) => {},
            Err(e) => return Err(e),
        }
        let ghost sent = happenings(events@);
        events.push(Event::Subscribed);
        assert(happenings(events@) =~= sent.push(Happening::Subscribed));
        // ESPHome devices ask HA for the time once a client is fully up.
        let ask = encode_bare(&proto::GetTimeRequest {  });
        let r = self.send(&ask, events);
        proof {
            let states = t.sent_all(raws(msgs@), msgs@.len());
            assert(happenings(events@) =~= said + (states.events + seq![Happening::Subscribed]
                + states.talk.sent(ask@).events));
        }
        r
    }

    fn handle_log_subscription(&mut self, msg: &RawMessage, events: &mut Vec<Event>) -> (r: Result<
        (),
        Error,
    >)
        ensures
            replies(
                old(self)@.log_subscribed(msg@),
                final(self)@,
                happenings(old(events)@),
                happenings(final(events)@),
                r,
            ),
    {
        let ghost said = happenings(events@);
        assert(said =~= said + seq![]);
        match msg.decode::<proto::SubscribeLogsRequest>() {
            Ok(c) => {
                assert(c.values()[0] == Value::Int(c.level));
                self.log_level = c.level;
                Ok(())
            },
            Err(e) => Err(e),
        }
    }

    /// `now` is the Unix time, 0 if unknown.
    fn handle(&mut self, shared: &Shared, msg: RawMessage, now: u32, events: &mut Vec<Event>) -> (r:
        Result<(), Error>)
        requires
            old(self)@.coder.can_send(cost(shared@)),
        ensures
            replies(
                old(self)@.handled(shared@, msg@, now),
                final(self)@,
                happenings(old(events)@),
                happenings(final(events)@),
                r,
            ),
    {
        let ghost t = self@;
        let ghost said = happenings(events@);
        let id: u32 = msg.id;
        proof {
            reveal(Talk::handled);
            proto::lemma_ids();
            lemma_can_send_less(t.coder, cost(shared@), 1);
        }
        if self.phase == Phase::AwaitHello {
            self.handle_hello(shared, &msg, events)
        } else if id == proto::PingRequest::ID {
            let m = encode_bare(&proto::PingResponse {  });
            self.send(&m, events)
        } else if id == proto::DisconnectRequest::ID {
            let m = encode_bare(&proto::DisconnectResponse {  });
            match self.send(&m, events) {
                Ok(()) => {},
                Err(e) => return Err(e),
            }
            let ghost sent = happenings(events@);
            self.phase = Phase::Closing;
            events.push(Event::Disconnect);
            assert(happenings(events@) =~= sent.push(Happening::Disconnect));
            assert(happenings(events@) =~= said + (t.sent(m@).events + seq![
                Happening::Disconnect,
            ]));
            Ok(())
        } else if id == proto::DisconnectResponse::ID {
            self.phase = Phase::Closing;
            events.push(Event::Disconnect);
            assert(happenings(events@) =~= said + seq![Happening::Disconnect]);
            Ok(())
        } else if id == proto::DeviceInfoRequest::ID {
            let info = shared.device.device_info();
            let m = RawMessage::encode(&info);
            self.send(&m, events)
        } else if id == proto::ListEntitiesRequest::ID {
            self.handle_list(shared, events)
        } else if id == proto::SubscribeStatesRequest::ID {
            self.handle_subscribe(shared, events)
        } else if id == proto::SubscribeLogsRequest::ID {
            self.handle_log_subscription(&msg, events)
        } else if id == proto::SwitchCommandRequest::ID || id == proto::NumberCommandRequest::ID
            || id == proto::SelectCommandRequest::ID || id == proto::ButtonCommandRequest::ID || id
            == proto::ExecuteServiceRequest::ID || id == proto::GetTimeResponse::ID {
            self.handle_command(&msg, events)
        } else if id == proto::GetTimeRequest::ID {
            // A client asking us for time: answer with what we have (0 = unknown).
            let resp = proto::GetTimeResponse { epoch_seconds: now, timezone: String::new() };
            assert(resp.values() =~= seq![Value::Fixed(now), Value::Text(seq![])]);
            let m = RawMessage::encode(&resp);
            self.send(&m, events)
        } else {
            let ignored = id == proto::AuthenticationRequest::ID || id == proto::PingResponse::ID
                || id == proto::SubscribeHomeassistantServicesRequest::ID || id
                == proto::SubscribeHomeAssistantStatesRequest::ID;
            if !ignored {
                if let Some(c) = shared.capabilities {
                    if id == c.request {
                        let m = RawMessage { id: c.response, payload: Vec::new() };
                        return self.send(&m, events);
                    }
                }
            }
            assert(said =~= said + seq![]);
            Ok(())
        }
    }

    /// Work off received bytes up to the first message. The result says whether to go on.
    fn step(&mut self, shared: &Shared, now: u32, events: &mut Vec<Event>) -> (go_on: bool)
        requires
            old(self)@.has_room(shared@),
        ensures
            ({
                let t = old(self)@;
                let said = happenings(old(events)@);
                let all = t.ran(shared@, now);
                if go_on {
                    let more = final(self)@.ran(shared@, now);
                    &&& final(self)@.has_room(shared@)
                    &&& final(self)@.buf.len() < t.buf.len()
                    &&& more.0 == all.0
                    &&& happenings(final(events)@) + more.1 == said + all.1
                } else {
                    &&& final(self)@ == all.0
                    &&& happenings(final(events)@) == said + all.1
                }
            }),
    {
        let ghost t = self@;
        let ghost said = happenings(events@);
        let ghost room = allowance(shared@, t.buf.len());
        proof {
            lemma_decoded(t.coder, t.buf, room);
        }
        let decoded = self.codec.decode(&mut self.buf);
        // Handshake frames (or a rejection) the codec wants on the wire, in order.
        let frames = self.codec.take_pending();
        let ghost shown = t.coder.decoded(t.buf).0.pending().map_values(
            |f: Seq<u8>| Happening::Send(f),
        );
        push_frames(frames, events);
        let ghost next = self@;
        assert(happenings(events@) =~= said + shown);
        let msg = match decoded {
            Ok(Some(m)) => m,
            Ok(None) => {
                return false;
            },
            Err(e) => {
                let ghost before = happenings(events@);
                events.push(Event::Error(e));
                assert(happenings(events@) =~= before.push(Happening::Error(e@)));
                assert(happenings(events@) =~= said + shown.push(Happening::Error(e@)));
                return false;
            },
        };
        let ghost left = allowance(shared@, next.buf.len());
        proof {
            lemma_allowance(shared@, next.buf.len(), t.buf.len());
            lemma_can_send_less(next.coder, room, left + cost(shared@));
            lemma_can_send_less(next.coder, room, cost(shared@));
            lemma_handled(next, shared@, msg@, now, left, next.buf.len() + 1);
        }
        let ghost h = next.handled(shared@, msg@, now);
        match self.handle(shared, msg, now, events) {
            Ok(()) => {},
            Err(e) => {
                let ghost before = happenings(events@);
                events.push(Event::Error(e));
                assert(happenings(events@) =~= before.push(Happening::Error(e@)));
                assert(happenings(events@) =~= said + (shown + h.events).push(
                    Happening::Error(e@),
                ));
                return false;
            },
        }
        assert(happenings(events@) =~= said + (shown + h.events));
        if self.phase == Phase::Closing {
            return false;
        }
        proof {
            let more = h.talk.ran(shared@, now);
            assert(said + (shown + h.events + more.1) =~= said + (shown + h.events) + more.1);
        }
        true
    }

    /// Feed bytes from the wire; returns events in order. An `Event::Error` or
    /// `Event::Disconnect` is always last and means the connection must be closed after the
    /// preceding `Send` events have been written. `now` is the Unix time, 0 if unknown.
    pub fn on_bytes(&mut self, shared: &Shared, data: &[u8], now: u32) -> (events: Vec<Event>)
        requires
            old(self)@.fed(data@).has_room(shared@),
        ensures
            final(self)@ == old(self)@.fed(data@).ran(shared@, now).0,
            happenings(events@) == old(self)@.fed(data@).ran(shared@, now).1,
    {
        self.buf.extend_from_slice(data);
        assert(self.buf@ =~= old(self).buf@ + data@);
        let ghost all = self@.ran(shared@, now);
        let mut events: Vec<Event> = Vec::new();
        assert(happenings(events@) =~= seq![]);
        assert(happenings(events@) + all.1 =~= all.1);
        loop
            invariant
                self@.has_room(shared@),
                all == old(self)@.fed(data@).ran(shared@, now),
                self@.ran(shared@, now).0 == all.0,
                happenings(events@) + self@.ran(shared@, now).1 == all.1,
            decreases self@.buf.len(),
        {
            if !self.step(shared, now, &mut events) {
                return events;
            }
        }
    }
}

fn push_frames(frames: Vec<Vec<u8>>, events: &mut Vec<Event>)
    ensures
        happenings(final(events)@) == happenings(old(events)@) + noise::frames(
            frames@,
        ).map_values(|f: Seq<u8>| Happening::Send(f)),
{
    let ghost said = happenings(events@);
    let ghost shown = noise::frames(frames@).map_values(|f: Seq<u8>| Happening::Send(f));
    let mut i: usize = 0;
    assert(said + shown.take(0) =~= said);
    while i < frames.len()
        invariant
            i <= frames@.len(),
            shown == noise::frames(frames@).map_values(|f: Seq<u8>| Happening::Send(f)),
            happenings(events@) == said + shown.take(i as int),
        decreases frames.len() - i,
    {
        let mut copy: Vec<u8> = Vec::new();
        copy.extend_from_slice(frames[i].as_slice());
        assert(copy@ =~= frames@[i as int]@);
        let ghost before = happenings(events@);
        events.push(Event::Send(copy));
        assert(happenings(events@) =~= before.push(Happening::Send(copy@)));
        assert(shown.take(i + 1) =~= shown.take(i as int).push(shown[i as int]));
        i += 1;
        assert(happenings(events@) =~= said + shown.take(i as int));
    }
    assert(shown.take(i as int) =~= shown);
}

/// The most messages that working off `len` bytes can send.
pub open spec fn allowance(world: World, len: nat) -> nat {
    (len + 1) * cost(world)
}

impl Talk {
    /// The counters of the encryption have room for what working off the received bytes takes.
    pub open spec fn has_room(self, world: World) -> bool {
        &&& allowance(world, self.buf.len()) <= u64::MAX
        &&& self.coder.can_send(allowance(world, self.buf.len()))
        &&& self.buf.len() < u64::MAX
        &&& self.coder.can_receive(self.buf.len() + 1)
    }
}

impl Session {
    /// The counters of the encryption have room for another `len` bytes.
    pub fn has_room(&self, shared: &Shared, len: usize) -> (r: bool)
        ensures
            forall|data: Seq<u8>|
                data.len() == len ==> r == #[trigger] self@.fed(data).has_room(shared@),
            r ==> self@.coder.can_send(1),
    {
        let bytes: u128 = self.buf.len() as u128 + len as u128;
        let most: u128 = shared.registry.len() as u128 + shared.states.len() as u128 + 2;
        let ghost (b, m) = (bytes as nat, most as nat);
        proof {
            assert forall|data: Seq<u8>| data.len() == len implies #[trigger] self@.fed(
                data,
            ).buf.len() == b && allowance(shared@, b) == (b + 1) * m by {}
            assert((b + 1) * m >= m && m >= 2) by (nonlinear_arith)
                requires
                    b >= 0,
                    m >= 2,
            ;
        }
        if bytes >= 0xffff_ffff_ffff_ffff || most > 0xffff_ffff_ffff_ffff {
            return false;
        }
        assert((b + 1) * m <= 0xffff_ffff_ffff_ffff_ffff_ffff_ffff_ffff) by (nonlinear_arith)
            requires
                b + 1 <= 0xffff_ffff_ffff_ffff,
                m <= 0xffff_ffff_ffff_ffff,
        ;
        let sends: u128 = (bytes + 1) * most;
        if sends > 0xffff_ffff_ffff_ffff {
            return false;
        }
        self.codec.has_room(sends as u64, (bytes + 1) as u64)
    }
}

proof fn lemma_allowance(world: World, less: nat, more: nat)
    requires
        less < more,
    ensures
        allowance(world, less) + cost(world) <= allowance(world, more),
{
    let c = cost(world);
    assert((less + 1) * c + c <= (more + 1) * c) by (nonlinear_arith)
        requires
            less < more,
    ;
}

/// Decoding takes bytes off, never adds any, and at most one message at a time.
proof fn lemma_noise_decoded(n: noise::Noise, b: Seq<u8>, sends: nat)
    requires
        Coder::Noise(n).can_send(sends),
        sends <= u64::MAX,
        b.len() < u64::MAX,
        Coder::Noise(n).can_receive(b.len() + 1),
    ensures
        ({
            let (next, rest, got) = n.decoded(b);
            &&& rest.len() <= b.len()
            &&& got is Message ==> rest.len() < b.len()
            &&& Coder::Noise(next).can_send(sends)
            &&& got is Message ==> Coder::Noise(next).can_receive(rest.len() + 1)
        }),
    decreases b.len(),
{
    if !(n.phase is Failed) {
        if let noise::Cut::Payload(payload) = n.cut(b) {
            let rest = b.skip((3 + payload.len()) as int);
            match n.phase {
                noise::Phase::ClientHello => {
                    lemma_noise_decoded(n.greeted(payload), rest, sends);
                },
                noise::Phase::Handshake { prologue } => {
                    let (next, fault) = n.shaken(prologue, payload);
                    lemma_noise_decoded(next, rest, sends);
                },
                _ => {},
            }
        }
    }
}

proof fn lemma_decoded(c: Coder, b: Seq<u8>, sends: nat)
    requires
        c.can_send(sends),
        sends <= u64::MAX,
        b.len() < u64::MAX,
        c.can_receive(b.len() + 1),
    ensures
        ({
            let (next, rest, got) = c.decoded(b);
            &&& rest.len() <= b.len()
            &&& got is Message ==> rest.len() < b.len()
            &&& next.flushed().can_send(sends)
            &&& got is Message ==> next.flushed().can_receive(rest.len() + 1)
        }),
{
    match c {
        Coder::Plaintext => {
            crate::api::frame::lemma_front(b);
        },
        Coder::Noise(n) => {
            lemma_noise_decoded(n, b, sends);
        },
    }
}

/// Sending touches the encryption's send counter only.
spec fn kept(before: Talk, after: Talk, sends: nat, receives: nat) -> bool {
    &&& after.buf == before.buf
    &&& after.coder.can_send(sends)
    &&& after.coder.can_receive(receives)
}

proof fn lemma_sent_keeps(t: Talk, msg: Raw, sends: nat, receives: nat)
    requires
        t.coder.can_send(sends + 1),
        t.coder.can_receive(receives),
    ensures
        kept(t, t.sent(msg).talk, sends, receives),
{
}

proof fn lemma_sent_all_keeps(t: Talk, msgs: Seq<Raw>, n: nat, sends: nat, receives: nat)
    requires
        t.coder.can_send(sends + n),
        t.coder.can_receive(receives),
    ensures
        kept(t, t.sent_all(msgs, n).talk, sends, receives),
    decreases n,
{
    if n > 0 {
        lemma_sent_all_keeps(t, msgs, (n - 1) as nat, sends + 1, receives);
        let before = t.sent_all(msgs, (n - 1) as nat);
        lemma_sent_keeps(before.talk, msgs[n - 1], sends, receives);
    }
}

proof fn lemma_reports_len(world: World, n: nat)
    ensures
        reports(world, n).len() <= n,
    decreases n,
{
    if n > 0 {
        lemma_reports_len(world, (n - 1) as nat);
    }
}

proof fn lemma_handled(t: Talk, world: World, msg: Raw, now: u32, sends: nat, receives: nat)
    requires
        t.coder.can_send(sends + cost(world)),
        t.coder.can_receive(receives),
    ensures
        kept(t, t.handled(world, msg, now).talk, sends, receives),
{
    reveal(Talk::handled);
    lemma_can_send_less(t.coder, sends + cost(world), sends + 1);
    lemma_can_send_less(t.coder, sends + cost(world), sends);
    assert forall|u: Talk, m: Raw|
        u.coder.can_send(sends + 1) && u.coder.can_receive(receives) implies kept(
        u,
        (#[trigger] u.sent(m)).talk,
        sends,
        receives,
    ) by {
        lemma_sent_keeps(u, m, sends, receives);
    }
    if msg.id == proto::ListEntitiesRequest::id() {
        let msgs = listings(world);
        lemma_can_send_less(t.coder, sends + cost(world), sends + 1 + msgs.len());
        lemma_sent_all_keeps(t, msgs, msgs.len(), sends + 1, receives);
        lemma_can_send_less(t.sent_all(msgs, msgs.len()).talk.coder, sends + 1, sends);
    }
    if msg.id == proto::SubscribeStatesRequest::id() {
        let msgs = reports(world, world.states.len());
        lemma_reports_len(world, world.states.len());
        let u = Talk { subscribed: true, ..t };
        lemma_can_send_less(t.coder, sends + cost(world), sends + 1 + msgs.len());
        lemma_sent_all_keeps(u, msgs, msgs.len(), sends + 1, receives);
        lemma_can_send_less(u.sent_all(msgs, msgs.len()).talk.coder, sends + 1, sends);
    }
}

/// The message tells the application to do this.
fn parse_command(msg: &RawMessage) -> (r: Result<Command, Error>)
    requires
        is_command(msg@.id),
    ensures
        forall|t: Talk|
            (#[trigger] t.commanded(msg@)) == match r {
                Ok(c) => t.tell(Happening::Command(c@)),
                Err(e) => t.wrong(e@),
            },
{
    let id: u32 = msg.id;
    proof {
        proto::lemma_ids();
    }
    if id == proto::SwitchCommandRequest::ID {
        match msg.decode::<proto::SwitchCommandRequest>() {
            Ok(c) => {
                assert(c.values()[0] == Value::Fixed(c.key) && c.values()[1] == Value::Flag(
                    c.state,
                ));
                Ok(Command::Switch { key: c.key, on: c.state })
            },
            Err(e) => Err(e),
        }
    } else if id == proto::NumberCommandRequest::ID {
        match msg.decode::<proto::NumberCommandRequest>() {
            Ok(c) => {
                assert(c.values()[0] == Value::Fixed(c.key) && c.values()[1] == Value::Float(
                    c.state,
                ));
                Ok(Command::Number { key: c.key, value: c.state })
            },
            Err(e) => Err(e),
        }
    } else if id == proto::SelectCommandRequest::ID {
        match msg.decode::<proto::SelectCommandRequest>() {
            Ok(c) => {
                assert(c.values()[0] == Value::Fixed(c.key) && c.values()[1] == Value::Text(
                    c.state@,
                ));
                Ok(Command::Select { key: c.key, option: c.state })
            },
            Err(e) => Err(e),
        }
    } else if id == proto::ButtonCommandRequest::ID {
        match msg.decode::<proto::ButtonCommandRequest>() {
            Ok(c) => {
                assert(c.values()[0] == Value::Fixed(c.key));
                Ok(Command::Button { key: c.key })
            },
            Err(e) => Err(e),
        }
    } else if id == proto::ExecuteServiceRequest::ID {
        match msg.decode::<proto::ExecuteServiceRequest>() {
            Ok(c) => {
                assert(c.values()[0] == Value::Fixed(c.key) && c.values()[1] == Value::Parts(
                    c.args@.map_values(|a: proto::ExecuteServiceArgument| a.values()),
                ));
                Ok(Command::Service { key: c.key, args: c.args })
            },
            Err(e) => Err(e),
        }
    } else {
        match msg.decode::<proto::GetTimeResponse>() {
            Ok(c) => {
                assert(c.values()[0] == Value::Fixed(c.epoch_seconds) && c.values()[1]
                    == Value::Text(c.timezone@));
                Ok(Command::Time { epoch_seconds: c.epoch_seconds, timezone: c.timezone })
            },
            Err(e) => Err(e),
        }
    }
}

/// Messages, as contracts speak of them.
pub open spec fn raws(v: Seq<RawMessage>) -> Seq<Raw> {
    v.map_values(|m: RawMessage| m@)
}

/// A method did what the reply says: it left `after`, added its events, and failed with its fault.
spec fn replies(
    reply: Reply,
    after: Talk,
    before_events: Seq<Happening>,
    after_events: Seq<Happening>,
    r: Result<(), Error>,
) -> bool {
    &&& after == reply.talk
    &&& after_events == before_events + reply.events
    &&& match reply.fault {
        Some(f) => r is Err && r->Err_0@ == f,
        None => r is Ok,
    }
}

proof fn lemma_can_send_less(c: Coder, n: nat, m: nat)
    requires
        c.can_send(n),
        m <= n,
    ensures
        c.can_send(m),
{
}

/// After the first message that cannot be sent, none is.
proof fn lemma_sent_all_stops(t: Talk, msgs: Seq<Raw>, i: nat, n: nat)
    requires
        i <= n,
        t.sent_all(msgs, i).fault is Some,
    ensures
        t.sent_all(msgs, n) == t.sent_all(msgs, i),
    decreases n,
{
    if i < n {
        lemma_sent_all_stops(t, msgs, i, (n - 1) as nat);
    }
}

/// The message for a state change, if the client wants it.
pub open spec fn update_message(t: Talk, world: World, key: u32, state: Reading) -> Option<Raw> {
    if !t.subscribed {
        None
    } else {
        match entity::find(world.entities, key) {
            Some(e) => e.report(state),
            None => None,
        }
    }
}

/// Encoding a message gave `r` and left `after`.
pub open spec fn encodes(before: Talk, msg: Raw, after: Talk, r: Result<Vec<u8>, Error>) -> bool {
    let (coder, wire) = before.coder.encoded(msg);
    &&& after == (Talk { coder, ..before })
    &&& match wire {
        Ok(w) => r is Ok && r->Ok_0@ == w,
        Err(f) => r is Err && r->Err_0@ == f,
    }
}

} // verus!
