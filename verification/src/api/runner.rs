//! What to do on one connection: which bytes to write and which commands to pass on, when to ask
//! for a sign of life and when to give up. Reading and writing are the caller's.

use vstd::prelude::*;

use crate::api::codec::Codec;
use crate::api::error::{Error, Fault};
use crate::api::logs;
use crate::api::proto;
use crate::api::message::ApiMessage;
use crate::api::server::{Message, Outbound, Shared, World};
use crate::api::session;
use crate::api::session::{Command, Event, Happening, Order, Phase, Session, Talk};
use crate::safeguard;

verus! {

/// How long to wait for bytes before looking at other things, in milliseconds.
pub const READ_POLL: u64 = 50;

/// Silence after which the peer is asked for a sign of life, in milliseconds.
pub const KEEPALIVE_IDLE: u64 = 60_000;

/// Silence after which the peer is given up, in milliseconds.
pub const KEEPALIVE_DEAD: u64 = 150_000;

/// Something to do, in order.
#[derive(Debug)]
pub enum Step {
    /// Write bytes to the peer.
    Write(Vec<u8>),
    /// The peer said who it is.
    Connected(String),
    /// Pass a command on to the application.
    Tell(Command),
    /// Flush and shut the connection down in both directions: it ends as closed.
    Shut,
    /// Flush and shut down the sending side: the connection ends with the error.
    Fail(Error),
}

/// A [`Step`], as contracts speak of it.
pub enum Doing {
    Write(Seq<u8>),
    Connected(Seq<char>),
    Tell(Order),
    Shut,
    Fail(Fault),
}

impl View for Step {
    type V = Doing;

    open spec fn view(&self) -> Doing {
        match self {
            Step::Write(b) => Doing::Write(b@),
            Step::Connected(s) => Doing::Connected(s@),
            Step::Tell(c) => Doing::Tell(c@),
            Step::Shut => Doing::Shut,
            Step::Fail(e) => Doing::Fail(e@),
        }
    }
}

/// What to do about an event.
pub open spec fn doing(event: Happening, client_info: Seq<char>) -> Doing {
    match event {
        Happening::Send(b) => Doing::Write(b),
        Happening::Hello(info) => Doing::Connected(info),
        Happening::Subscribed => Doing::Tell(Order::ClientSubscribed { client_info }),
        Happening::Command(c) => Doing::Tell(c),
        Happening::Disconnect => Doing::Shut,
        Happening::Error(f) => Doing::Fail(f),
    }
}

/// What to do about the events, in order.
pub fn dispatch(events: Vec<Event>, client_info: &str) -> (r: Vec<Step>)
    ensures
        r@.map_values(|s: Step| s@) == session::happenings(events@).map_values(
            |e: Happening| doing(e, client_info@),
        ),
{
    let ghost all = events@;
    let mut rest: Vec<Event> = events;
    let mut back: Vec<Step> = Vec::new();
    // Taken from the end, and turned round after.
    while rest.len() > 0
        invariant
            rest@.len() + back@.len() == all.len(),
            forall|i: int| 0 <= i < rest@.len() ==> rest@[i] == all[i],
            forall|i: int|
                0 <= i < back@.len() ==> (#[trigger] back@[i])@ == doing(
                    all[all.len() - 1 - i]@,
                    client_info@,
                ),
        decreases rest.len(),
    {
        if let Some(ev) = rest.pop() {
            let step = match ev {
                Event::Send(bytes) => Step::Write(bytes),
                Event::Hello(info) => Step::Connected(info),
                Event::Subscribed => Step::Tell(
                    Command::ClientSubscribed { client_info: client_info.to_owned() },
                ),
                Event::Command(c) => Step::Tell(c),
                Event::Disconnect => Step::Shut,
                Event::Error(e) => Step::Fail(e),
            };
            back.push(step);
        }
    }
    let ghost mid = back@;
    let mut out: Vec<Step> = Vec::new();
    while back.len() > 0
        invariant
            mid.len() == all.len(),
            back@.len() + out@.len() == all.len(),
            forall|i: int| 0 <= i < back@.len() ==> back@[i] == mid[i],
            forall|i: int|
                0 <= i < mid.len() ==> (#[trigger] mid[i])@ == doing(
                    all[all.len() - 1 - i]@,
                    client_info@,
                ),
            forall|i: int|
                0 <= i < out@.len() ==> (#[trigger] out@[i])@ == doing(all[i]@, client_info@),
        decreases back.len(),
    {
        let ghost n = out@.len();
        if let Some(s) = back.pop() {
            assert(s == mid[all.len() - 1 - n]);
            out.push(s);
        }
    }
    assert(out@.map_values(|s: Step| s@) =~= session::happenings(all).map_values(
        |e: Happening| doing(e, client_info@),
    ));
    out
}

/// One connection.
pub struct Connection {
    session: Session,
    last_rx_ms: u64,
    ping_sent: bool,
}

/// A [`Connection`], as contracts speak of it.
pub struct Line {
    pub talk: Talk,
    /// When bytes last arrived.
    pub last_rx_ms: u64,
    /// The peer has been asked for a sign of life since.
    pub ping_sent: bool,
}

impl View for Connection {
    type V = Line;

    closed spec fn view(&self) -> Line {
        Line { talk: self.session@, last_rx_ms: self.last_rx_ms, ping_sent: self.ping_sent }
    }
}

/// What to do about a message from the server.
#[derive(Debug)]
pub enum Reaction {
    Nothing,
    Write(Vec<u8>),
    /// The connection ends, and that is no error.
    End,
}

impl Connection {
    pub fn new(codec: Codec, now_ms: u64) -> (r: Connection)
        ensures
            r@.talk.coder == codec@,
            r@.talk.buf == Seq::<u8>::empty(),
            r@.talk.phase == Phase::AwaitHello,
            !r@.talk.subscribed,
            r@.talk.log_level == 0,
            r@.talk.client_info == Seq::<char>::empty(),
            r@.last_rx_ms == now_ms,
            !r@.ping_sent,
    {
        Connection { session: Session::new(codec), last_rx_ms: now_ms, ping_sent: false }
    }

    /// Bytes arrived. `epoch` is the Unix time, 0 if unknown.
    pub fn on_read(&mut self, shared: &Shared, data: &[u8], now_ms: u64, epoch: u32) -> (r: Vec<
        Step,
    >)
        requires
            old(self)@.talk.fed(data@).has_room(shared@),
        ensures
            ({
                let (talk, events) = old(self)@.talk.fed(data@).ran(shared@, epoch);
                &&& final(self)@ == (Line { talk, last_rx_ms: now_ms, ping_sent: false })
                &&& r@.map_values(|s: Step| s@) == events.map_values(
                    |e: Happening| doing(e, talk.client_info),
                )
            }),
    {
        self.last_rx_ms = now_ms;
        self.ping_sent = false;
        let events = self.session.on_bytes(shared, data, epoch);
        dispatch(events, self.session.client_info())
    }

    /// The server has something for this connection.
    pub fn on_outbound(&mut self, shared: &Shared, out: &Outbound) -> (r: Result<Reaction, Error>)
        requires
            old(self)@.talk.coder.can_send(1),
        ensures
            match wanted(old(self)@.talk, shared@, out@) {
                Wanted::Nothing => r is Ok && r->Ok_0 is Nothing && final(self)@ == old(self)@,
                Wanted::End => r is Ok && r->Ok_0 is End && final(self)@ == old(self)@,
                Wanted::Message(m) => {
                    let (coder, wire) = old(self)@.talk.coder.encoded(m);
                    &&& final(self)@ == (Line {
                        talk: Talk { coder, ..old(self)@.talk },
                        ..old(self)@
                    })
                    &&& match wire {
                        Ok(w) => r matches Ok(Reaction::Write(b)) && b@ == w,
                        Err(f) => r is Err && r->Err_0@ == f,
                    }
                },
            },
    {
        match out {
            Outbound::State(key, state) => {
                if *key == u32::MAX {
                    return Ok(Reaction::Nothing);
                }
                match self.session.state_update(shared, *key, state) {
                    Ok(Some(bytes)) => Ok(Reaction::Write(bytes)),
                    Ok(None) => Ok(Reaction::Nothing),
                    Err(e) => Err(e),
                }
            },
            Outbound::Log(level, line) => match self.session.log_line(*level, line) {
                Ok(Some(bytes)) => Ok(Reaction::Write(bytes)),
                Ok(None) => Ok(Reaction::Nothing),
                Err(e) => Err(e),
            },
            Outbound::Close => Ok(Reaction::End),
        }
    }

    /// Look after the connection: a ping to write when it has been silent for long, once, and an
    /// error when it has been for too long.
    pub fn keepalive(&mut self, now_ms: u64) -> (r: Result<Option<Vec<u8>>, Error>)
        requires
            old(self)@.talk.coder.can_send(1),
        ensures
            ({
                let line = old(self)@;
                let idle = safeguard::elapsed(now_ms, line.last_rx_ms);
                if idle > KEEPALIVE_DEAD {
                    r is Err && r->Err_0@ == Fault::Frame("keepalive timeout"@) && final(self)@
                        == line
                } else if idle > KEEPALIVE_IDLE && !line.ping_sent {
                    let (coder, wire) = line.talk.coder.encoded(
                        session::bare(proto::PingRequest::id()),
                    );
                    let talk = Talk { coder, ..line.talk };
                    match wire {
                        Ok(w) => r is Ok && r->Ok_0 is Some && (r->Ok_0->0)@ == w && final(self)@
                            == (Line { talk, ping_sent: true, ..line }),
                        Err(f) => r is Err && r->Err_0@ == f && final(self)@ == (Line {
                            talk,
                            ..line
                        }),
                    }
                } else {
                    r is Ok && r->Ok_0 is None && final(self)@ == line
                }
            }),
    {
        let idle = now_ms.saturating_sub(self.last_rx_ms);
        if idle > KEEPALIVE_DEAD {
            return Err(Error::Frame("keepalive timeout"));
        }
        if idle > KEEPALIVE_IDLE && !self.ping_sent {
            match self.session.ping_request() {
                Ok(bytes) => {
                    self.ping_sent = true;
                    Ok(Some(bytes))
                },
                Err(e) => Err(e),
            }
        } else {
            Ok(None)
        }
    }

    /// The counters of the encryption have room for another `len` bytes.
    pub fn has_room(&self, shared: &Shared, len: usize) -> (r: bool)
        ensures
            forall|data: Seq<u8>|
                data.len() == len ==> r == #[trigger] self@.talk.fed(data).has_room(shared@),
            r ==> self@.talk.coder.can_send(1),
    {
        self.session.has_room(shared, len)
    }

    pub fn client_info(&self) -> (r: &str)
        ensures
            r@ == self@.talk.client_info,
    {
        self.session.client_info()
    }

    /// What the application is told when the connection has ended.
    pub fn gone(&self) -> (r: Command)
        ensures
            r@ == (Order::ClientGone { subscribed: self@.talk.subscribed }),
    {
        Command::ClientGone { subscribed: self.session.subscribed() }
    }
}

/// What a message from the server asks for.
pub enum Wanted {
    Nothing,
    Message(crate::api::frame::Raw),
    End,
}

/// State changes and log lines go to those who subscribed to them; the server's probe goes nowhere.
pub open spec fn wanted(talk: Talk, world: World, out: Message) -> Wanted {
    match out {
        Message::State(key, state) => if key == u32::MAX {
            Wanted::Nothing
        } else {
            match session::update_message(talk, world, key, state) {
                Some(m) => Wanted::Message(m),
                None => Wanted::Nothing,
            }
        },
        Message::Log(level, line) => if logs::passes(talk.log_level, level) {
            Wanted::Message(logs::log_raw(level, line))
        } else {
            Wanted::Nothing
        },
        Message::Close => Wanted::End,
    }
}

} // verus!
