//! Plaintext framing of the ESPHome native API.
//!
//! Every frame is `0x00`, varint payload length, varint message type, then the protobuf bytes.
//! (The Noise-encrypted framing lives in `noise.rs`.)

use vstd::prelude::*;

use crate::api::error::{Error, Fault};
use crate::api::message;
use crate::api::message::ApiMessage;
use crate::api::varint;
use crate::api::varint::{Parsed, Reader, Taken};

verus! {

pub const PLAINTEXT_INDICATOR: u8 = 0x00;

pub const NOISE_INDICATOR: u8 = 0x01;

/// Refuse absurd payloads; ESPHome itself caps frames around a few KB.
pub const MAX_PAYLOAD: u32 = 65536;

/// A decoded frame: message type id and raw protobuf payload.
#[derive(Debug, Clone, PartialEq, Eq)]
pub struct RawMessage {
    pub id: u32,
    pub payload: Vec<u8>,
}

/// A [`RawMessage`], as contracts speak of it.
pub struct Raw {
    pub id: u32,
    pub payload: Seq<u8>,
}

impl View for RawMessage {
    type V = Raw;

    open spec fn view(&self) -> Raw {
        Raw { id: self.id, payload: self.payload@ }
    }
}

/// A message with its type id.
pub open spec fn raw<M: ApiMessage>(msg: M) -> Raw {
    Raw { id: M::id(), payload: message::written(M::slots(), M::part(), msg.values()) }
}

impl RawMessage {
    pub fn encode<M: ApiMessage>(msg: &M) -> (r: RawMessage)
        ensures
            r@ == raw(*msg),
    {
        proof {
            M::lemma_id();
        }
        RawMessage { id: M::ID, payload: msg.encode_to_vec() }
    }

    pub fn decode<M: ApiMessage>(&self) -> (r: Result<M, Error>)
        ensures
            match message::read(M::slots(), M::part(), self@.payload) {
                Some(values) => r is Ok && r->Ok_0.values() == values,
                None => r is Err && r->Err_0@ == Fault::Decode,
            },
    {
        M::decode(self.payload.as_slice())
    }
}

/// A message with the plaintext header.
pub open spec fn plaintext_frame(msg: Raw) -> Seq<u8> {
    seq![PLAINTEXT_INDICATOR] + varint::bytes_of((msg.payload.len() as u32) as nat)
        + varint::bytes_of(msg.id as nat) + msg.payload
}

/// Serialise a frame with the plaintext header.
pub fn encode_plaintext(msg: &RawMessage) -> (r: Vec<u8>)
    ensures
        r@ == plaintext_frame(msg@),
{
    let mut out: Vec<u8> = Vec::new();
    out.push(PLAINTEXT_INDICATOR);
    assert(out@ =~= seq![PLAINTEXT_INDICATOR]);
    varint::encode(msg.payload.len() as u32, &mut out);
    varint::encode(msg.id, &mut out);
    out.extend_from_slice(msg.payload.as_slice());
    assert(out@ =~= plaintext_frame(msg@));
    out
}

/// Append a frame with the plaintext header to what is to be sent.
pub fn write_plaintext(out: &mut Vec<u8>, msg: &RawMessage)
    ensures
        final(out)@ == old(out)@ + plaintext_frame(msg@),
{
    let mut frame = encode_plaintext(msg);
    out.append(&mut frame);
}

/// What a stream of plaintext frames starts with.
pub enum Start {
    /// A message, and how far its frame reaches.
    Message(Raw, nat),
    /// No whole frame, and no more to come.
    Bad(Fault),
}

/// The rest of a plaintext frame after the indicator byte.
pub open spec fn body(b: Seq<u8>) -> Start {
    match varint::taken(b) {
        Taken::Closed => Start::Bad(Fault::Closed),
        Taken::TooLong => Start::Bad(Fault::Frame("varint too long"@)),
        Taken::Value(len, n) => match varint::taken(b.skip(n as int)) {
            Taken::Closed => Start::Bad(Fault::Closed),
            Taken::TooLong => Start::Bad(Fault::Frame("varint too long"@)),
            Taken::Value(id, m) => if len > MAX_PAYLOAD {
                Start::Bad(Fault::Frame("payload too large"@))
            } else if n + m + len > b.len() {
                Start::Bad(Fault::Closed)
            } else {
                Start::Message(
                    Raw { id, payload: b.subrange((n + m) as int, (n + m + len) as int) },
                    n + m + len as nat,
                )
            },
        },
    }
}

/// A plaintext frame.
pub open spec fn start(b: Seq<u8>) -> Start {
    if b.len() == 0 {
        Start::Bad(Fault::Closed)
    } else if b[0] != PLAINTEXT_INDICATOR {
        Start::Bad(Fault::Frame("expected plaintext indicator"@))
    } else {
        match body(b.skip(1)) {
            Start::Message(msg, n) => Start::Message(msg, n + 1),
            Start::Bad(fault) => Start::Bad(fault),
        }
    }
}

/// Read the rest of a plaintext frame after the indicator byte has already been consumed.
pub fn read_plaintext_body(r: &mut Reader) -> (msg: Result<RawMessage, Error>)
    ensures
        match body(old(r).left()) {
            Start::Message(m, n) => msg is Ok && msg->Ok_0@ == m && final(r).left()
                == old(r).left().skip(n as int),
            Start::Bad(fault) => msg is Err && msg->Err_0@ == fault,
        },
{
    let ghost b = r.left();
    let len = match varint::read(r) {
        Ok(v) => v,
        Err(e) => return Err(e),
    };
    proof {
        varint::lemma_taken(b);
    }
    let ghost n = varint::taken(b)->Value_1;
    let id = match varint::read(r) {
        Ok(v) => v,
        Err(e) => return Err(e),
    };
    proof {
        varint::lemma_taken(b.skip(n as int));
    }
    let ghost m = varint::taken(b.skip(n as int))->Value_1;
    if len > MAX_PAYLOAD {
        return Err(Error::Frame("payload too large"));
    }
    assert(b.skip(n as int).skip(m as int) =~= b.skip((n + m) as int));
    match r.take(len as usize) {
        Some(payload) => {
            proof {
                let left = b.skip((n + m) as int);
                assert(left.take(len as int) =~= b.subrange((n + m) as int, (n + m + len) as int));
                assert(left.skip(len as int) =~= b.skip((n + m + len) as int));
            }
            Ok(RawMessage { id, payload })
        },
        None => Err(Error::Closed),
    }
}

/// Read one plaintext frame including its indicator byte.
pub fn read_plaintext(r: &mut Reader) -> (msg: Result<RawMessage, Error>)
    ensures
        match start(old(r).left()) {
            Start::Message(m, n) => msg is Ok && msg->Ok_0@ == m && final(r).left()
                == old(r).left().skip(n as int),
            Start::Bad(fault) => msg is Err && msg->Err_0@ == fault,
        },
{
    let ghost b = r.left();
    match r.byte() {
        None => Err(Error::Closed),
        Some(ind) => {
            if ind != PLAINTEXT_INDICATOR {
                return Err(Error::Frame("expected plaintext indicator"));
            }
            let msg = read_plaintext_body(r);
            proof {
                if let Start::Message(m, n) = body(b.skip(1)) {
                    assert(b.skip(1).skip(n as int) =~= b.skip((n + 1) as int));
                }
            }
            msg
        },
    }
}

/// What a buffer of received bytes starts with.
pub enum Front {
    /// A message, and how far its frame reaches.
    Message(Raw, nat),
    /// The beginning of a frame.
    Part,
    /// No frame.
    Bad(Fault),
}

/// A plaintext frame at the start of what has been received so far.
pub open spec fn front(b: Seq<u8>) -> Front {
    if b.len() == 0 {
        Front::Part
    } else if b[0] == NOISE_INDICATOR {
        Front::Bad(Fault::Frame("client wants encryption but no key is configured"@))
    } else if b[0] != PLAINTEXT_INDICATOR {
        Front::Bad(Fault::Frame("bad indicator byte"@))
    } else {
        match varint::parsed(b.skip(1)) {
            Parsed::Part => Front::Part,
            Parsed::TooLong => Front::Bad(Fault::Frame("varint too long"@)),
            Parsed::Value(len, n) => match varint::parsed(b.skip((1 + n) as int)) {
                Parsed::Part => Front::Part,
                Parsed::TooLong => Front::Bad(Fault::Frame("varint too long"@)),
                Parsed::Value(id, m) => if len > MAX_PAYLOAD {
                    Front::Bad(Fault::Frame("payload too large"@))
                } else if 1 + n + m + len > b.len() {
                    Front::Part
                } else {
                    Front::Message(
                        Raw {
                            id,
                            payload: b.subrange((1 + n + m) as int, (1 + n + m + len) as int),
                        },
                        1 + n + m + len as nat,
                    )
                },
            },
        }
    }
}

/// A frame is not empty and lies within the bytes.
pub proof fn lemma_front(b: Seq<u8>)
    ensures
        front(b) matches Front::Message(m, n) ==> 1 <= n <= b.len(),
{
    if b.len() > 0 {
        varint::lemma_parsed(b.skip(1));
    }
}

/// Take a message off the front of what has been received so far. `Ok(None)` = need more bytes.
pub fn decode_plaintext(buf: &mut Vec<u8>) -> (r: Result<Option<RawMessage>, Error>)
    ensures
        match front(old(buf)@) {
            Front::Message(m, n) => r is Ok && r->Ok_0 is Some && (r->Ok_0->0)@ == m && final(buf)@
                == old(buf)@.skip(n as int),
            Front::Part => r is Ok && r->Ok_0 is None && final(buf)@ == old(buf)@,
            Front::Bad(fault) => r is Err && r->Err_0@ == fault && final(buf)@ == old(buf)@,
        },
{
    let ghost b = buf@;
    if buf.len() == 0 {
        return Ok(None);
    }
    let ind = buf[0];
    if ind == NOISE_INDICATOR {
        return Err(Error::Frame("client wants encryption but no key is configured"));
    }
    if ind != PLAINTEXT_INDICATOR {
        return Err(Error::Frame("bad indicator byte"));
    }
    let mut pos: usize = 1;
    assert(b.subrange(1, b.len() as int) =~= b.skip(1));
    let (len, n) = match varint::parse(vstd::slice::slice_subrange(buf.as_slice(), pos, buf.len())) {
        Ok(Some(x)) => x,
        Ok(None) => return Ok(None),
        Err(e) => return Err(e),
    };
    proof {
        varint::lemma_parsed(b.skip(1));
        assert(b.subrange(1 + n, b.len() as int) =~= b.skip(1 + n));
    }
    pos = pos + n;
    let (id, m) = match varint::parse(vstd::slice::slice_subrange(buf.as_slice(), pos, buf.len())) {
        Ok(Some(x)) => x,
        Ok(None) => return Ok(None),
        Err(e) => return Err(e),
    };
    proof {
        varint::lemma_parsed(b.skip(1 + n));
    }
    pos = pos + m;
    if len > MAX_PAYLOAD {
        return Err(Error::Frame("payload too large"));
    }
    if buf.len() - pos < len as usize {
        return Ok(None);
    }
    let end: usize = pos + len as usize;
    let mut payload: Vec<u8> = Vec::new();
    payload.extend_from_slice(vstd::slice::slice_subrange(buf.as_slice(), pos, end));
    drop_front(buf, end);
    assert(payload@ =~= b.subrange(pos as int, end as int));
    Ok(Some(RawMessage { id, payload }))
}

/// Remove the first `n` bytes.
pub fn drop_front(buf: &mut Vec<u8>, n: usize)
    requires
        n <= old(buf)@.len(),
    ensures
        final(buf)@ == old(buf)@.skip(n as int),
{
    let rest = buf.split_off(n);
    *buf = rest;
    assert(buf@ =~= old(buf)@.skip(n as int));
}

// ----- laws ----------------------------------------------------------------------------------------

/// The parts of a frame, with what follows it.
proof fn lemma_frame_parts(msg: Raw, rest: Seq<u8>)
    requires
        msg.payload.len() <= MAX_PAYLOAD,
    ensures
        ({
            let b = plaintext_frame(msg) + rest;
            let len = varint::bytes_of(msg.payload.len());
            let id = varint::bytes_of(msg.id as nat);
            let (n, m) = (len.len(), id.len());
            &&& b.len() > 0 && b[0] == PLAINTEXT_INDICATOR
            &&& b.skip(1) == len + (id + msg.payload + rest)
            &&& b.skip((1 + n) as int) == id + (msg.payload + rest)
            &&& b.subrange((1 + n + m) as int, (1 + n + m + msg.payload.len()) as int)
                == msg.payload
            &&& plaintext_frame(msg).len() == 1 + n + m + msg.payload.len()
        }),
{
    let b = plaintext_frame(msg) + rest;
    let len = varint::bytes_of(msg.payload.len());
    let id = varint::bytes_of(msg.id as nat);
    let (n, m) = (len.len(), id.len());
    assert(b.skip(1) =~= len + (id + msg.payload + rest));
    assert(b.skip((1 + n) as int) =~= id + (msg.payload + rest));
    assert(b.subrange((1 + n + m) as int, (1 + n + m + msg.payload.len()) as int) =~= msg.payload);
}

/// Decoding gives back the message that was framed, and takes exactly its frame off the buffer,
/// whatever follows it.
pub proof fn law_plaintext_round_trips(msg: Raw, rest: Seq<u8>)
    requires
        msg.payload.len() <= MAX_PAYLOAD,
    ensures
        front(plaintext_frame(msg) + rest) == Front::Message(msg, plaintext_frame(msg).len()),
        (plaintext_frame(msg) + rest).skip(plaintext_frame(msg).len() as int) == rest,
        start(plaintext_frame(msg) + rest) == Start::Message(msg, plaintext_frame(msg).len()),
{
    let b = plaintext_frame(msg) + rest;
    let len = varint::bytes_of(msg.payload.len());
    let id = varint::bytes_of(msg.id as nat);
    lemma_frame_parts(msg, rest);
    varint::law_varint_round_trips(msg.payload.len() as u32, id + msg.payload + rest);
    varint::law_varint_round_trips(msg.id, msg.payload + rest);
    assert(b.skip(plaintext_frame(msg).len() as int) =~= rest);
    assert(b.skip(1).skip(len.len() as int) =~= b.skip((1 + len.len()) as int));
    let (n, m) = (len.len(), id.len());
    assert(b.skip(1).subrange((n + m) as int, (n + m + msg.payload.len()) as int) =~= msg.payload);
}

/// A part of a frame asks for more bytes, and is neither a message nor an error.
pub proof fn law_part_of_a_frame_asks_for_more(msg: Raw, k: int)
    requires
        msg.payload.len() <= MAX_PAYLOAD,
        0 <= k < plaintext_frame(msg).len(),
    ensures
        front(plaintext_frame(msg).take(k)) == Front::Part,
{
    let f = plaintext_frame(msg);
    let b = f.take(k);
    let len = varint::bytes_of(msg.payload.len());
    let id = varint::bytes_of(msg.id as nat);
    let (n, m) = (len.len(), id.len());
    lemma_frame_parts(msg, seq![]);
    if k > 0 {
        assert(b[0] == f[0]);
        if k < 1 + n {
            assert(b.skip(1) =~= len.take(k - 1));
            varint::law_part_of_a_varint_asks_for_more(msg.payload.len() as u32, k - 1);
        } else {
            let after = (id + msg.payload).take(k - 1 - n);
            assert(b.skip(1) =~= len + after);
            varint::law_varint_round_trips(msg.payload.len() as u32, after);
            assert(b.skip((1 + n) as int) =~= after);
            if k < 1 + n + m {
                assert(after =~= id.take(k - 1 - n));
                varint::law_part_of_a_varint_asks_for_more(msg.id, k - 1 - n);
            } else {
                assert(after =~= id + msg.payload.take(k - 1 - n - m));
                varint::law_varint_round_trips(msg.id, msg.payload.take(k - 1 - n - m));
            }
        }
    }
}

} // verus!
