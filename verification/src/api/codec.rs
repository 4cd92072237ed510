//! Frame codec over a byte buffer: turns raw stream bytes into messages and back.
//! `Plaintext` is the plaintext framing; `Noise` wraps the encrypted variant.

use vstd::prelude::*;

use crate::api::error::{Error, Fault};
use crate::api::frame;
use crate::api::frame::{Front, Raw, RawMessage};
use crate::api::noise;
use crate::api::noise::{Got, Noise, NoiseCodec};

verus! {

pub enum Codec {
    Plaintext,
    Noise(Box<NoiseCodec>),
}

/// A [`Codec`], as contracts speak of it.
pub enum Coder {
    Plaintext,
    Noise(Noise),
}

impl View for Codec {
    type V = Coder;

    open spec fn view(&self) -> Coder {
        match self {
            Codec::Plaintext => Coder::Plaintext,
            Codec::Noise(n) => Coder::Noise(n@),
        }
    }
}

impl Coder {
    /// Received bytes are worked off up to the first message: the next state, what is left of
    /// the bytes, and what came of them.
    pub open spec fn decoded(self, b: Seq<u8>) -> (Coder, Seq<u8>, Got) {
        match self {
            Coder::Plaintext => match frame::front(b) {
                Front::Message(m, n) => (self, b.skip(n as int), Got::Message(m)),
                Front::Part => (self, b, Got::More),
                Front::Bad(f) => (self, b, Got::Bad(f)),
            },
            Coder::Noise(n) => {
                let (next, rest, got) = n.decoded(b);
                (Coder::Noise(next), rest, got)
            },
        }
    }

    /// A message becomes bytes for the wire.
    pub open spec fn encoded(self, msg: Raw) -> (Coder, Result<Seq<u8>, Fault>) {
        match self {
            Coder::Plaintext => (self, Ok(frame::plaintext_frame(msg))),
            Coder::Noise(n) => {
                let (next, wire) = n.encoded(msg);
                (Coder::Noise(next), wire)
            },
        }
    }

    /// Frames to send before any application message.
    pub open spec fn pending(self) -> Seq<Seq<u8>> {
        match self {
            Coder::Plaintext => seq![],
            Coder::Noise(n) => n.pending,
        }
    }

    /// The same without frames to send.
    pub open spec fn flushed(self) -> Coder {
        match self {
            Coder::Plaintext => self,
            Coder::Noise(n) => Coder::Noise(Noise { pending: seq![], ..n }),
        }
    }

    pub open spec fn ready(self) -> bool {
        match self {
            Coder::Plaintext => true,
            Coder::Noise(n) => n.ready(),
        }
    }

    /// `n` more frames can be received.
    pub open spec fn can_receive(self, n: nat) -> bool {
        self matches Coder::Noise(c) ==> (c.phase matches noise::Phase::Transport {
            send_key,
            send_n,
            recv_key,
            recv_n,
        } ==> recv_n + n <= u64::MAX)
    }

    /// `n` more messages can be sent.
    pub open spec fn can_send(self, n: nat) -> bool {
        self matches Coder::Noise(c) ==> (c.phase matches noise::Phase::Transport {
            send_key,
            send_n,
            recv_key,
            recv_n,
        } ==> send_n + n <= u64::MAX)
    }
}

impl Codec {
    /// Try to take one complete message off the front of `buf`. `Ok(None)` = need more bytes.
    pub fn decode(&mut self, buf: &mut Vec<u8>) -> (r: Result<Option<RawMessage>, Error>)
        requires
            old(self)@.can_receive(1),
        ensures
            ({
                let (next, rest, got) = old(self)@.decoded(old(buf)@);
                &&& final(self)@ == next
                &&& final(buf)@ == rest
                &&& match got {
                    Got::Message(m) => r is Ok && r->Ok_0 is Some && (r->Ok_0->0)@ == m,
                    Got::More => r is Ok && r->Ok_0 is None,
                    Got::Bad(f) => r is Err && r->Err_0@ == f,
                }
            }),
    {
        match self {
            Codec::Plaintext => frame::decode_plaintext(buf),
            Codec::Noise(n) => n.decode(buf),
        }
    }

    /// Bytes to put on the wire for `msg`.
    pub fn encode(&mut self, msg: &RawMessage) -> (r: Result<Vec<u8>, Error>)
        requires
            old(self)@.can_send(1),
        ensures
            ({
                let (next, wire) = old(self)@.encoded(msg@);
                &&& final(self)@ == next
                &&& match wire {
                    Ok(w) => r is Ok && r->Ok_0@ == w,
                    Err(f) => r is Err && r->Err_0@ == f,
                }
            }),
            // An encrypted message is one that the peer can open.
            r is Ok ==> (old(self)@ matches Coder::Noise(n) ==> n.carried(msg@, r->Ok_0@)),
    {
        match self {
            Codec::Plaintext => Ok(frame::encode_plaintext(msg)),
            Codec::Noise(n) => n.encode(msg),
        }
    }

    /// Frames the codec wants to send before any application message (Noise handshake).
    pub fn take_pending(&mut self) -> (r: Vec<Vec<u8>>)
        ensures
            noise::frames(r@) == old(self)@.pending(),
            final(self)@ == old(self)@.flushed(),
    {
        match self {
            Codec::Plaintext => {
                let r: Vec<Vec<u8>> = Vec::new();
                assert(noise::frames(r@) =~= seq![]);
                r
            },
            Codec::Noise(n) => n.take_pending(),
        }
    }

    /// The counters of the encryption have room for that many more messages.
    pub fn has_room(&self, sends: u64, receives: u64) -> (r: bool)
        ensures
            r == (self@.can_send(sends as nat) && self@.can_receive(receives as nat)),
    {
        match self {
            Codec::Plaintext => true,
            Codec::Noise(n) => match n.counters() {
                Some((sent, received)) => sends <= u64::MAX - sent && receives <= u64::MAX
                    - received,
                None => true,
            },
        }
    }

    /// True once application messages can flow.
    pub fn ready(&self) -> (r: bool)
        ensures
            r == self@.ready(),
    {
        match self {
            Codec::Plaintext => true,
            Codec::Noise(n) => n.ready(),
        }
    }
}

} // verus!
