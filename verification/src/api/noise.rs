//! Noise_NNpsk0_25519_ChaChaPoly_SHA256 framing, byte-compatible with ESPHome's
//! `api_frame_helper_noise.cpp` and aioesphomeapi's `noise.py`.
//!
//! Wire sequence (client speaks first):
//! 1. client hello frame: `01 | len u16 BE | payload` (payload empty today; it is appended to the
//!    prologue `"NoiseAPIInit" + u16 BE len + payload`)
//! 2. server hello frame: `01 | len | 0x01 | name NUL | mac12 NUL`
//! 3. client handshake frame: `01 | len | 0x00 | noise msg 1 (e + tag)`
//! 4. server handshake frame: `01 | len | 0x00 | noise msg 2` (or `0x01 | reason` on rejection)
//! 5. data frames: `01 | len | ciphertext( type u16 BE | len u16 BE | protobuf ) + tag`

use base64::Engine;
use noise_protocol::patterns::noise_nn_psk0;
use noise_protocol::{
    CipherState, ErrorKind, HandshakeState, HandshakeStateBuilder, U8Array, DH,
};
use noise_rust_crypto::{ChaCha20Poly1305, Sha256, X25519};
use vstd::prelude::*;
use vstd::string::*;
use vstd::utf8::*;

use crate::api::error::{Error, Fault};
use crate::api::frame;
use crate::api::frame::{Raw, RawMessage, NOISE_INDICATOR};
use crate::text;

verus! {

pub const HANDSHAKE_OK: u8 = 0x00;

pub const HANDSHAKE_REJECT: u8 = 0x01;

pub const MAX_HANDSHAKE_FRAME: usize = 128;

pub const MAX_DATA_FRAME: usize = 32768;

/// The largest payload of a message that can be sent: sealed, with its header of four bytes and a
/// tag of 16, it has to fit the 16-bit length of a frame.
pub const MAX_PAYLOAD: usize = 65515;

/// Exact text aioesphomeapi matches to raise `InvalidEncryptionKeyAPIError` (no NUL).
pub const REJECT_MAC_FAILURE: &'static str = "Handshake MAC failure";

// ----- base64 --------------------------------------------------------------------------------------

/// What a text stands for in standard base64 with padding, or what is wrong with it.
pub uninterp spec fn base64_decoded(s: Seq<char>) -> Result<Seq<u8>, Seq<char>>;

/// Bytes in standard base64 with padding.
pub uninterp spec fn base64_encoded(b: Seq<u8>) -> Seq<char>;

/// A character of standard base64, or its padding.
pub open spec fn is_base64_char(c: char) -> bool {
    'A' <= c <= 'Z' || 'a' <= c <= 'z' || '0' <= c <= '9' || c == '+' || c == '/' || c == '='
}

/// `Engine::decode` of base64's `STANDARD` engine, with the text of its error.
#[verifier::external_body]
fn decode_base64(s: &str) -> (r: Result<Vec<u8>, String>)
    ensures
        match base64_decoded(s@) {
            Ok(b) => r is Ok && r->Ok_0@ == b,
            Err(e) => r is Err && r->Err_0@ == e,
        },
{
    base64::engine::general_purpose::STANDARD.decode(s).map_err(|e| e.to_string())
}

/// `Engine::encode` of base64's `STANDARD` engine: four characters for every three bytes or part
/// of them, all from the alphabet, and decoded to the same bytes.
#[verifier::external_body]
fn encode_base64(b: &[u8]) -> (r: String)
    requires
        b@.len() <= 0xffff,
    ensures
        r@ == base64_encoded(b@),
        r@.len() == (b@.len() + 2) / 3 * 4,
        forall|i: int| 0 <= i < r@.len() ==> is_base64_char(#[trigger] r@[i]),
        base64_decoded(r@) is Ok && base64_decoded(r@)->Ok_0 == b@,
{
    base64::engine::general_purpose::STANDARD.encode(b)
}

/// `X25519::genkey` of noise-rust-crypto: 32 random bytes. Nothing is known of them.
#[verifier::external_body]
fn random_key() -> (r: [u8; 32]) {
    *X25519::genkey()
}

// ----- keys ----------------------------------------------------------------------------------------

/// What a configured key stands for: 32 bytes, or what is wrong with it.
pub open spec fn psk_of(b64: Seq<char>) -> Result<Seq<u8>, Seq<char>> {
    key_from(base64_decoded(text::trimmed(b64)))
}

/// A key, given what its text decodes to.
pub open spec fn key_from(decoded: Result<Seq<u8>, Seq<char>>) -> Result<Seq<u8>, Seq<char>> {
    match decoded {
        Ok(bytes) => if bytes.len() == 32 {
            Ok(bytes)
        } else {
            Err("key must decode to 32 bytes, got "@ + text::decimal(bytes.len()))
        },
        Err(e) => Err("invalid base64: "@ + e),
    }
}

/// The key that the decoded bytes are, if there are 32.
pub fn key_from_decoded(decoded: Result<Vec<u8>, String>) -> (r: Result<[u8; 32], String>)
    ensures
        ({
            let d = match decoded {
                Ok(b) => Ok::<Seq<u8>, Seq<char>>(b@),
                Err(e) => Err(e@),
            };
            match key_from(d) {
                Ok(k) => r is Ok && r->Ok_0@ == k,
                Err(e) => r is Err && r->Err_0@ == e,
            }
        }),
{
    match decoded {
        Ok(bytes) => {
            if bytes.len() == 32 {
                let mut k: [u8; 32] = [0;32];
                let mut i: usize = 0;
                while i < 32
                    invariant
                        i <= 32,
                        bytes@.len() == 32,
                        forall|j: int| 0 <= j < i ==> k@[j] == bytes@[j],
                    decreases 32 - i,
                {
                    k[i] = bytes[i];
                    i += 1;
                }
                assert(k@ =~= bytes@);
                Ok(k)
            } else {
                let mut e = String::from_str("key must decode to 32 bytes, got ");
                text::push_decimal(&mut e, bytes.len() as u64);
                Err(e)
            }
        },
        Err(why) => {
            let mut e = String::from_str("invalid base64: ");
            e.append(why.as_str());
            Err(e)
        },
    }
}

/// Decode the base64 PSK as configured in HA / ESPHome (`api: encryption: key:`).
pub fn parse_psk(b64: &str) -> (r: Result<[u8; 32], String>)
    ensures
        match psk_of(b64@) {
            Ok(k) => r is Ok && r->Ok_0@ == k,
            Err(e) => r is Err && r->Err_0@ == e,
        },
{
    let t = text::trim(b64);
    key_from_decoded(decode_base64(t.as_str()))
}

/// A key in base64, for provisioning.
pub fn psk_b64(key: [u8; 32]) -> (r: String)
    ensures
        r@ == base64_encoded(key@),
        r@.len() == 44,
        psk_of(r@) == Ok::<Seq<u8>, Seq<char>>(key@),
{
    let r = encode_base64(key.as_slice());
    proof {
        assert forall|i: int| 0 <= i < r@.len() implies !text::is_whitespace(#[trigger] r@[i]) by {
            assert(is_base64_char(r@[i]));
        }
        text::lemma_trimmed_nothing(r@);
    }
    r
}

/// Generate a fresh random PSK, base64 encoded, for provisioning.
pub fn generate_psk_b64() -> (r: String)
    ensures
        exists|key: Seq<u8>| #[trigger]
            psk_of(r@) == Ok::<Seq<u8>, Seq<char>>(key) && key.len() == 32,
        r@.len() == 44,
{
    let key = random_key();
    let r = psk_b64(key);
    assert(psk_of(r@) == Ok::<Seq<u8>, Seq<char>>(key@) && key@.len() == 32);
    r
}

// ----- the cipher ------------------------------------------------------------------------------------

/// ChaCha20-Poly1305 of a text under a key and a counter, without additional data.
pub uninterp spec fn sealed(key: Seq<u8>, n: u64, plain: Seq<u8>) -> Seq<u8>;

/// What was sealed under a key and a counter, if it was.
pub uninterp spec fn opened(key: Seq<u8>, n: u64, cipher: Seq<u8>) -> Option<Seq<u8>>;

/// `CipherState::encrypt_vec` of noise-protocol with ChaCha20-Poly1305: a tag of 16 bytes longer
/// than the text, and opened to the text again under the same key and counter.
#[verifier::external_body]
fn seal(key: &[u8; 32], n: u64, plain: &[u8]) -> (r: Vec<u8>)
    requires
        n < u64::MAX,
        plain@.len() <= 0xf_ffff,
    ensures
        r@ == sealed(key@, n, plain@),
        r@.len() == plain@.len() + 16,
        opened(key@, n, r@) == Some(plain@),
{
    CipherState::<ChaCha20Poly1305>::new(key, n).encrypt_vec(plain)
}

/// `CipherState::decrypt_vec` of noise-protocol with ChaCha20-Poly1305: 16 bytes shorter than
/// what it is given, and nothing if that is not sealed under the key and the counter, or shorter
/// than the tag.
#[verifier::external_body]
fn open(key: &[u8; 32], n: u64, cipher: &[u8]) -> (r: Option<Vec<u8>>)
    requires
        n < u64::MAX,
        cipher@.len() <= 0xf_ffff,
    ensures
        match opened(key@, n, cipher@) {
            Some(plain) => r is Some && (r->0)@ == plain && cipher@.len() == plain.len() + 16,
            None => r is None,
        },
        cipher@.len() < 16 ==> r is None,
{
    CipherState::<ChaCha20Poly1305>::new(key, n).decrypt_vec(cipher).ok()
}

/// How the responder of `Noise_NNpsk0_25519_ChaChaPoly_SHA256` answers the first message: the
/// second message, the key to receive and the key to send with. Nothing, if the first message was
/// not made with the same key and prologue. `secret` is the responder's ephemeral key.
pub uninterp spec fn handshake(
    psk: Seq<u8>,
    prologue: Seq<u8>,
    msg: Seq<u8>,
    secret: Seq<u8>,
) -> Option<(Seq<u8>, Seq<u8>, Seq<u8>)>;

/// The responder's side of the handshake of noise-protocol, with noise-rust-crypto: a state from
/// `HandshakeStateBuilder`, `read_message_vec`, `write_message_vec` and the two keys of
/// `get_ciphers`. A first message shorter than an X25519 key and a tag is refused (`Err(false)`),
/// and one that does not decrypt (`Err(true)`). After the second message the handshake is
/// complete, and both counters are zero.
#[verifier::external_body]
fn respond(psk: &[u8; 32], prologue: &[u8], msg: &[u8], secret: &[u8; 32]) -> (r: Result<
    (Vec<u8>, [u8; 32], [u8; 32]),
    bool,
>)
    ensures
        msg@.len() < 48 ==> r is Err && !r->Err_0,
        msg@.len() >= 48 ==> match handshake(psk@, prologue@, msg@, secret@) {
            Some(a) => r is Ok && r->Ok_0.0@ == a.0 && r->Ok_0.1@ == a.1 && r->Ok_0.2@ == a.2,
            None => r is Err && r->Err_0,
        },
        r is Ok ==> r->Ok_0.0@.len() == 48,
{
    let mut b = HandshakeStateBuilder::<X25519>::new();
    b.set_pattern(noise_nn_psk0()).set_is_initiator(false).set_prologue(prologue);
    b.set_e(U8Array::from_slice(secret));
    let mut hs: HandshakeState<X25519, ChaCha20Poly1305, Sha256> = b.build_handshake_state();
    hs.push_psk(psk);
    hs.read_message_vec(msg).map_err(|e| e.kind() == ErrorKind::Decryption)?;
    let reply = hs.write_message_vec(&[]).map_err(|e| e.kind() == ErrorKind::Decryption)?;
    let (recv, send) = hs.get_ciphers();
    Ok((reply, *recv.extract().0, *send.extract().0))
}

// ----- the codec -------------------------------------------------------------------------------------

enum State {
    ClientHello,
    Handshake { prologue: Vec<u8> },
    Transport { send_key: [u8; 32], send_n: u64, recv_key: [u8; 32], recv_n: u64 },
    Failed,
}

pub struct NoiseCodec {
    psk: [u8; 32],
    name: String,
    mac12: String,
    /// The ephemeral key of this connection.
    secret: [u8; 32],
    state: State,
    pending: Vec<Vec<u8>>,
}

/// How far a connection has come.
pub enum Phase {
    ClientHello,
    Handshake { prologue: Seq<u8> },
    Transport { send_key: Seq<u8>, send_n: u64, recv_key: Seq<u8>, recv_n: u64 },
    Failed,
}

/// A [`NoiseCodec`], as contracts speak of it.
#[verifier::ext_equal]
pub struct Noise {
    pub psk: Seq<u8>,
    pub name: Seq<char>,
    pub mac12: Seq<char>,
    pub secret: Seq<u8>,
    pub phase: Phase,
    /// Frames to send, in order.
    pub pending: Seq<Seq<u8>>,
}

impl View for NoiseCodec {
    type V = Noise;

    closed spec fn view(&self) -> Noise {
        Noise {
            psk: self.psk@,
            name: self.name@,
            mac12: self.mac12@,
            secret: self.secret@,
            phase: match self.state {
                State::ClientHello => Phase::ClientHello,
                State::Handshake { prologue } => Phase::Handshake { prologue: prologue@ },
                State::Transport { send_key, send_n, recv_key, recv_n } => Phase::Transport {
                    send_key: send_key@,
                    send_n,
                    recv_key: recv_key@,
                    recv_n,
                },
                State::Failed => Phase::Failed,
            },
            pending: frames(self.pending@),
        }
    }
}

/// The contents of frames.
pub open spec fn frames(v: Seq<Vec<u8>>) -> Seq<Seq<u8>> {
    v.map_values(|f: Vec<u8>| f@)
}

/// Two bytes, the higher first.
pub open spec fn be(v: u16) -> Seq<u8> {
    seq![(v / 256) as u8, (v % 256) as u8]
}

pub open spec fn from_be(hi: u8, lo: u8) -> u16 {
    (hi * 256 + lo) as u16
}

/// A frame around a payload.
pub open spec fn framed(payload: Seq<u8>) -> Seq<u8> {
    seq![NOISE_INDICATOR] + be(payload.len() as u16) + payload
}

/// `NoiseAPIInit`.
pub open spec fn prologue_init() -> Seq<u8> {
    seq![78, 111, 105, 115, 101, 65, 80, 73, 73, 110, 105, 116]
}

/// What received bytes start with.
pub enum Cut {
    /// The beginning of a frame.
    Part,
    /// No frame, and why.
    Bad(Seq<char>),
    /// A frame around a payload.
    Payload(Seq<u8>),
}

/// What came of received bytes.
pub enum Got {
    Message(Raw),
    /// More bytes are needed.
    More,
    Bad(Fault),
}

impl Noise {
    pub open spec fn ready(self) -> bool {
        self.phase is Transport
    }

    pub open spec fn limit(self) -> int {
        if self.ready() {
            MAX_DATA_FRAME as int
        } else {
            MAX_HANDSHAKE_FRAME as int
        }
    }

    /// The frame at the start of received bytes.
    pub open spec fn cut(self, b: Seq<u8>) -> Cut {
        if b.len() < 3 {
            Cut::Part
        } else if b[0] != NOISE_INDICATOR {
            Cut::Bad("Bad indicator byte"@)
        } else {
            let len = from_be(b[1], b[2]);
            if len > self.limit() {
                Cut::Bad(
                    if self.ready() {
                        "Bad data packet"@
                    } else {
                        "Bad handshake packet len"@
                    },
                )
            } else if b.len() < 3 + len {
                Cut::Part
            } else {
                Cut::Payload(b.subrange(3, 3 + len))
            }
        }
    }

    /// The client is told why, and nothing more is heard from it.
    pub open spec fn rejected(self, reason: Seq<char>) -> Noise {
        Noise {
            phase: Phase::Failed,
            pending: self.pending.push(framed(seq![HANDSHAKE_REJECT] + encode_utf8(reason))),
            ..self
        }
    }

    /// The client said hello: its payload becomes part of the prologue, and it learns who the
    /// device is.
    pub open spec fn greeted(self, payload: Seq<u8>) -> Noise {
        Noise {
            phase: Phase::Handshake {
                prologue: prologue_init() + be(payload.len() as u16) + payload,
            },
            pending: self.pending.push(
                framed(
                    seq![1u8] + encode_utf8(self.name) + seq![0u8] + encode_utf8(self.mac12)
                        + seq![0u8],
                ),
            ),
            ..self
        }
    }

    /// The client's handshake message is answered, or refused.
    pub open spec fn shaken(self, prologue: Seq<u8>, payload: Seq<u8>) -> (Noise, Option<Fault>) {
        if payload.len() == 0 {
            self.refused("Empty handshake message"@)
        } else if payload[0] != HANDSHAKE_OK {
            self.refused("Bad handshake error byte"@)
        } else {
            let msg = payload.skip(1);
            self.answered(
                if msg.len() < 48 {
                    Err(false)
                } else {
                    match handshake(self.psk, prologue, msg, self.secret) {
                        Some(a) => Ok(a),
                        None => Err(true),
                    }
                },
            )
        }
    }

    /// What the handshake came to: the second message and the keys, or whether it was the first
    /// message that did not decrypt.
    pub open spec fn answered(self, answer: Result<(Seq<u8>, Seq<u8>, Seq<u8>), bool>) -> (
        Noise,
        Option<Fault>,
    ) {
        match answer {
            Ok(a) => (
                Noise {
                    phase: Phase::Transport { send_key: a.2, send_n: 0, recv_key: a.1, recv_n: 0 },
                    pending: self.pending.push(framed(seq![HANDSHAKE_OK] + a.0)),
                    ..self
                },
                None,
            ),
            Err(decryption) => self.refused(
                if decryption {
                    REJECT_MAC_FAILURE@
                } else {
                    "Handshake error"@
                },
            ),
        }
    }

    pub open spec fn refused(self, reason: Seq<char>) -> (Noise, Option<Fault>) {
        (self.rejected(reason), Some(Fault::Handshake(reason)))
    }

    /// A data frame is opened and taken apart.
    pub open spec fn received(self, payload: Seq<u8>) -> (Noise, Got) {
        match self.phase {
            Phase::Transport { send_key, send_n, recv_key, recv_n } => match opened(
                recv_key,
                recv_n,
                payload,
            ) {
                Some(plain) => (
                    Noise {
                        phase: Phase::Transport {
                            send_key,
                            send_n,
                            recv_key,
                            recv_n: (recv_n + 1) as u64,
                        },
                        ..self
                    },
                    unpacked(plain),
                ),
                None => (
                    Noise { phase: Phase::Failed, ..self },
                    Got::Bad(Fault::Handshake("data decryption failed"@)),
                ),
            },
            _ => (self, Got::More),
        }
    }

    /// Received bytes are worked off up to the first message: the next state, what is left of
    /// the bytes, and what came of them.
    pub open spec fn decoded(self, b: Seq<u8>) -> (Noise, Seq<u8>, Got)
        decreases b.len(),
    {
        if self.phase is Failed {
            (self, b, Got::Bad(Fault::Handshake("connection rejected"@)))
        } else {
            match self.cut(b) {
                Cut::Part => (self, b, Got::More),
                Cut::Bad(reason) => (
                    self.rejected(reason),
                    b,
                    Got::Bad(Fault::Handshake(reason)),
                ),
                Cut::Payload(payload) => {
                    let rest = b.skip((3 + payload.len()) as int);
                    match self.phase {
                        Phase::ClientHello => self.greeted(payload).decoded(rest),
                        Phase::Handshake { prologue } => {
                            let (next, fault) = self.shaken(prologue, payload);
                            match fault {
                                Some(f) => (next, rest, Got::Bad(f)),
                                None => next.decoded(rest),
                            }
                        },
                        _ => {
                            let (next, got) = self.received(payload);
                            (next, rest, got)
                        },
                    }
                },
            }
        }
    }

    /// The receive counter is not used up.
    pub open spec fn can_receive(self) -> bool {
        self.phase matches Phase::Transport { send_key, send_n, recv_key, recv_n } ==> recv_n
            < u64::MAX
    }

    /// The send counter is not used up.
    pub open spec fn can_send(self) -> bool {
        self.phase matches Phase::Transport { send_key, send_n, recv_key, recv_n } ==> send_n
            < u64::MAX
    }

    /// A message is sealed and framed.
    pub open spec fn encoded(self, msg: Raw) -> (Noise, Result<Seq<u8>, Fault>) {
        match self.phase {
            Phase::Transport { send_key, send_n, recv_key, recv_n } => if msg.payload.len()
                > MAX_PAYLOAD {
                (self, Err(Fault::Frame("message too large for noise frame"@)))
            } else {
                (
                    Noise {
                        phase: Phase::Transport {
                            send_key,
                            send_n: (send_n + 1) as u64,
                            recv_key,
                            recv_n,
                        },
                        ..self
                    },
                    Ok(framed(sealed(send_key, send_n, packed(msg)))),
                )
            },
            _ => (self, Err(Fault::Handshake("cannot send before handshake completes"@))),
        }
    }

    /// `w` is a whole data frame that carries `msg` under the send key and counter.
    pub open spec fn carried(self, msg: Raw, w: Seq<u8>) -> bool {
        &&& self.phase is Transport
        &&& w.len() == msg.payload.len() + 23
        &&& w[0] == NOISE_INDICATOR
        &&& from_be(w[1], w[2]) == w.len() - 3
        &&& w == framed(w.skip(3))
        &&& opened(self.phase->send_key, self.phase->send_n, w.skip(3)) == Some(packed(msg))
    }
}

/// A message inside a data frame.
pub open spec fn packed(msg: Raw) -> Seq<u8> {
    be(msg.id as u16) + be(msg.payload.len() as u16) + msg.payload
}

/// The message inside a data frame.
pub open spec fn unpacked(plain: Seq<u8>) -> Got {
    if plain.len() < 4 {
        Got::Bad(Fault::Frame("bad data packet"@))
    } else {
        let id = from_be(plain[0], plain[1]);
        let len = from_be(plain[2], plain[3]);
        if len > plain.len() - 4 {
            Got::Bad(Fault::Frame("bad data packet length"@))
        } else {
            Got::Message(Raw { id: id as u32, payload: plain.subrange(4, 4 + len) })
        }
    }
}

/// A codec at the start of a connection.
pub open spec fn fresh(
    psk: Seq<u8>,
    name: Seq<char>,
    mac12: Seq<char>,
    secret: Seq<u8>,
) -> Noise {
    Noise { psk, name, mac12, secret, phase: Phase::ClientHello, pending: seq![] }
}

fn put_be(v: u16, out: &mut Vec<u8>)
    ensures
        final(out)@ == old(out)@ + be(v),
{
    out.push((v / 256) as u8);
    out.push((v % 256) as u8);
    assert(out@ =~= old(out)@ + be(v));
}

impl NoiseCodec {
    /// `name` is the node name; `mac12` the MAC as 12 lowercase hex chars without separators.
    pub fn new(psk: [u8; 32], name: &str, mac12: &str) -> (r: NoiseCodec)
        ensures
            r@ == fresh(psk@, name@, text::unicode_lowercase(mac12@), r@.secret),
            r@.secret.len() == 32,
    {
        let secret = random_key();
        NoiseCodec::with_secret(psk, name, mac12, secret)
    }

    /// A codec whose ephemeral key is given.
    pub fn with_secret(psk: [u8; 32], name: &str, mac12: &str, secret: [u8; 32]) -> (r: NoiseCodec)
        ensures
            r@ == fresh(psk@, name@, text::unicode_lowercase(mac12@), secret@),
            text::ascii_only(mac12@) ==> r@.mac12 == text::ascii_lower(mac12@),
    {
        let r = NoiseCodec {
            psk,
            name: name.to_owned(),
            mac12: text::to_lowercase(mac12),
            secret,
            state: State::ClientHello,
            pending: Vec::new(),
        };
        assert(r@.pending =~= seq![]);
        r
    }

    pub fn ready(&self) -> (r: bool)
        ensures
            r == self@.ready(),
    {
        match self.state {
            State::Transport { .. } => true,
            _ => false,
        }
    }

    /// How many messages have been sent and received since the handshake.
    pub fn counters(&self) -> (r: Option<(u64, u64)>)
        ensures
            match self@.phase {
                Phase::Transport { send_key, send_n, recv_key, recv_n } => r == Some(
                    (send_n, recv_n),
                ),
                _ => r is None,
            },
    {
        match self.state {
            State::Transport { send_n, recv_n, .. } => Some((send_n, recv_n)),
            _ => None,
        }
    }

    pub fn take_pending(&mut self) -> (r: Vec<Vec<u8>>)
        ensures
            frames(r@) == old(self)@.pending,
            final(self)@ == (Noise { pending: seq![], ..old(self)@ }),
    {
        let mut out: Vec<Vec<u8>> = Vec::new();
        out.append(&mut self.pending);
        assert(self@.pending =~= seq![]);
        assert(frames(out@) =~= old(self)@.pending);
        out
    }

    /// A frame around a payload.
    pub fn frame(payload: &[u8]) -> (r: Vec<u8>)
        ensures
            r@ == framed(payload@),
    {
        let mut out: Vec<u8> = Vec::new();
        out.push(NOISE_INDICATOR);
        put_be(payload.len() as u16, &mut out);
        out.extend_from_slice(payload);
        assert(out@ =~= framed(payload@));
        out
    }

    fn send(&mut self, payload: &Vec<u8>)
        ensures
            final(self)@ == (Noise {
                pending: old(self)@.pending.push(framed(payload@)),
                ..old(self)@
            }),
    {
        let f = Self::frame(payload.as_slice());
        self.pending.push(f);
        assert(self@.pending =~= old(self)@.pending.push(framed(payload@)));
    }

    fn reject(&mut self, reason: &str) -> (e: Error)
        ensures
            final(self)@ == old(self)@.rejected(reason@),
            e@ == Fault::Handshake(reason@),
    {
        let mut p: Vec<u8> = Vec::new();
        p.push(HANDSHAKE_REJECT);
        p.extend_from_slice(reason.as_bytes());
        assert(p@ =~= seq![HANDSHAKE_REJECT] + encode_utf8(reason@));
        self.send(&p);
        self.state = State::Failed;
        Error::Handshake(reason.to_owned())
    }

    fn greet(&mut self, payload: &Vec<u8>)
        ensures
            final(self)@ == old(self)@.greeted(payload@),
    {
        let mut prologue: Vec<u8> = vec![78, 111, 105, 115, 101, 65, 80, 73, 73, 110, 105, 116];
        assert(prologue@ =~= prologue_init());
        put_be(payload.len() as u16, &mut prologue);
        prologue.extend_from_slice(payload.as_slice());
        assert(prologue@ =~= prologue_init() + be(payload@.len() as u16) + payload@);
        // Server hello: chosen proto, node name, mac (both NUL terminated).
        let mut hello: Vec<u8> = Vec::new();
        hello.push(1);
        hello.extend_from_slice(self.name.as_str().as_bytes());
        hello.push(0);
        hello.extend_from_slice(self.mac12.as_str().as_bytes());
        hello.push(0);
        assert(hello@ =~= seq![1u8] + encode_utf8(self@.name) + seq![0u8] + encode_utf8(self@.mac12)
            + seq![0u8]);
        self.send(&hello);
        self.state = State::Handshake { prologue };
    }

    /// Go on with what the handshake came to: the second message and the keys to receive and to
    /// send with, or whether it was the first message that did not decrypt.
    pub fn answer(&mut self, answer: Result<(Vec<u8>, [u8; 32], [u8; 32]), bool>) -> (r: Result<
        (),
        Error,
    >)
        ensures
            ({
                let a = match answer {
                    Ok(a) => Ok::<(Seq<u8>, Seq<u8>, Seq<u8>), bool>((a.0@, a.1@, a.2@)),
                    Err(d) => Err(d),
                };
                let (next, fault) = old(self)@.answered(a);
                &&& final(self)@ == next
                &&& match fault {
                    Some(f) => r is Err && r->Err_0@ == f,
                    None => r is Ok,
                }
            }),
    {
        match answer {
            Ok((reply, recv_key, send_key)) => {
                let mut p: Vec<u8> = Vec::new();
                p.push(HANDSHAKE_OK);
                p.extend_from_slice(reply.as_slice());
                assert(p@ =~= seq![HANDSHAKE_OK] + reply@);
                self.send(&p);
                self.state = State::Transport { send_key, send_n: 0, recv_key, recv_n: 0 };
                Ok(())
            },
            Err(decryption) => {
                let reason = if decryption {
                    REJECT_MAC_FAILURE
                } else {
                    "Handshake error"
                };
                Err(self.reject(reason))
            },
        }
    }

    fn shake(&mut self, prologue: &Vec<u8>, payload: &Vec<u8>) -> (r: Result<(), Error>)
        ensures
            ({
                let (next, fault) = old(self)@.shaken(prologue@, payload@);
                &&& final(self)@ == next
                &&& match fault {
                    Some(f) => r is Err && r->Err_0@ == f,
                    None => r is Ok,
                }
            }),
    {
        if payload.len() == 0 {
            return Err(self.reject("Empty handshake message"));
        }
        if payload[0] != HANDSHAKE_OK {
            return Err(self.reject("Bad handshake error byte"));
        }
        let msg = vstd::slice::slice_subrange(payload.as_slice(), 1, payload.len());
        assert(msg@ =~= payload@.skip(1));
        let answer = respond(&self.psk, prologue.as_slice(), msg, &self.secret);
        self.answer(answer)
    }

    /// Take one complete frame from `buf`, advancing the handshake or yielding a message.
    pub fn decode(&mut self, buf: &mut Vec<u8>) -> (r: Result<Option<RawMessage>, Error>)
        requires
            old(self)@.can_receive(),
        ensures
            ({
                let (next, rest, got) = old(self)@.decoded(old(buf)@);
                &&& final(self)@ == next
                &&& final(buf)@ == rest
                &&& match got {
                    Got::Message(m) => r is Ok && r->Ok_0 is Some && (r->Ok_0->0)@ == m,
                    Got::More => r is Ok && r->Ok_0 is None,
                    Got::Bad(f) => r is Err && r->Err_0@ == f,
                }
            }),
    {
        let ghost all = self@.decoded(buf@);
        loop
            invariant
                self@.can_receive(),
                self@.decoded(buf@) == all,
                all == old(self)@.decoded(old(buf)@),
            decreases buf@.len(),
        {
            let ghost m = self@;
            let ghost b = buf@;
            if let State::Failed = self.state {
                return Err(Error::Handshake(String::from_str("connection rejected")));
            }
            if buf.len() < 3 {
                return Ok(None);
            }
            if buf[0] != NOISE_INDICATOR {
                // A plaintext client on an encrypted device: tell it so HA can prompt for the key.
                return Err(self.reject("Bad indicator byte"));
            }
            let len: usize = buf[1] as usize * 256 + buf[2] as usize;
            let limit: usize = if self.ready() {
                MAX_DATA_FRAME
            } else {
                MAX_HANDSHAKE_FRAME
            };
            if len > limit {
                let reason = if self.ready() {
                    "Bad data packet"
                } else {
                    "Bad handshake packet len"
                };
                return Err(self.reject(reason));
            }
            if buf.len() - 3 < len {
                return Ok(None);
            }
            let mut payload: Vec<u8> = Vec::new();
            payload.extend_from_slice(vstd::slice::slice_subrange(buf.as_slice(), 3, 3 + len));
            assert(payload@ =~= b.subrange(3, 3 + len));
            frame::drop_front(buf, 3 + len);
            let mut state = State::Failed;
            std::mem::swap(&mut state, &mut self.state);
            match state {
                State::ClientHello => {
                    self.state = State::ClientHello;
                    assert(self@ =~= m);
                    self.greet(&payload);
                },
                State::Handshake { prologue } => {
                    let ghost failed = self@;
                    assert(failed.shaken(prologue@, payload@) == m.shaken(prologue@, payload@));
                    match self.shake(&prologue, &payload) {
                        Ok(()) => {},
                        Err(e) => return Err(e),
                    }
                },
                State::Transport { send_key, send_n, recv_key, recv_n } => {
                    let plain = match open(&recv_key, recv_n, payload.as_slice()) {
                        Some(plain) => plain,
                        None => {
                            return Err(
                                Error::Handshake(String::from_str("data decryption failed")),
                            );
                        },
                    };
                    self.state =
                    State::Transport { send_key, send_n, recv_key, recv_n: recv_n + 1 };
                    return unpack(&plain);
                },
                State::Failed => {
                    return Err(Error::Handshake(String::from_str("connection rejected")));
                },
            }
        }
    }

    pub fn encode(&mut self, msg: &RawMessage) -> (r: Result<Vec<u8>, Error>)
        requires
            old(self)@.can_send(),
        ensures
            ({
                let (next, wire) = old(self)@.encoded(msg@);
                &&& final(self)@ == next
                &&& match wire {
                    Ok(w) => r is Ok && r->Ok_0@ == w,
                    Err(f) => r is Err && r->Err_0@ == f,
                }
            }),
            // The peer, who shares key and counter, opens it to the message.
            r is Ok ==> old(self)@.carried(msg@, r->Ok_0@),
            r is Ok ==> r->Ok_0@.len() == msg.payload@.len() + 23,
    {
        match self.state {
            State::Transport { send_key, send_n, recv_key, recv_n } => {
                if msg.payload.len() > MAX_PAYLOAD {
                    return Err(Error::Frame("message too large for noise frame"));
                }
                let mut plain: Vec<u8> = Vec::new();
                put_be(msg.id as u16, &mut plain);
                put_be(msg.payload.len() as u16, &mut plain);
                plain.extend_from_slice(msg.payload.as_slice());
                assert(plain@ =~= packed(msg@));
                let cipher = seal(&send_key, send_n, plain.as_slice());
                self.state = State::Transport { send_key, send_n: send_n + 1, recv_key, recv_n };
                let wire = Self::frame(cipher.as_slice());
                assert(wire@.skip(3) =~= cipher@);
                proof {
                    lemma_be(cipher@.len() as u16);
                    assert(wire@[1] == be(cipher@.len() as u16)[0]);
                    assert(wire@[2] == be(cipher@.len() as u16)[1]);
                }
                Ok(wire)
            },
            _ => Err(
                Error::Handshake(String::from_str("cannot send before handshake completes")),
            ),
        }
    }
}

/// The message inside a data frame.
fn unpack(plain: &Vec<u8>) -> (r: Result<Option<RawMessage>, Error>)
    ensures
        match unpacked(plain@) {
            Got::Message(m) => r is Ok && r->Ok_0 is Some && (r->Ok_0->0)@ == m,
            Got::More => false,
            Got::Bad(f) => r is Err && r->Err_0@ == f,
        },
{
    if plain.len() < 4 {
        return Err(Error::Frame("bad data packet"));
    }
    let id: u32 = plain[0] as u32 * 256 + plain[1] as u32;
    let len: usize = plain[2] as usize * 256 + plain[3] as usize;
    if len > plain.len() - 4 {
        return Err(Error::Frame("bad data packet length"));
    }
    let mut payload: Vec<u8> = Vec::new();
    payload.extend_from_slice(vstd::slice::slice_subrange(plain.as_slice(), 4, 4 + len));
    assert(payload@ =~= plain@.subrange(4, 4 + len));
    Ok(Some(RawMessage { id, payload }))
}

// ----- laws ------------------------------------------------------------------------------------------

proof fn lemma_be(v: u16)
    ensures
        be(v).len() == 2,
        from_be(be(v)[0], be(v)[1]) == v,
{
}

/// What is packed into a data frame comes out of it.
pub proof fn law_packed_messages_come_out(msg: Raw)
    requires
        msg.id <= u16::MAX,
        msg.payload.len() <= u16::MAX,
    ensures
        unpacked(packed(msg)) == Got::Message(msg),
{
    let p = packed(msg);
    lemma_be(msg.id as u16);
    lemma_be(msg.payload.len() as u16);
    assert(p[0] == be(msg.id as u16)[0] && p[1] == be(msg.id as u16)[1]);
    assert(p[2] == be(msg.payload.len() as u16)[0] && p[3] == be(msg.payload.len() as u16)[1]);
    assert(p.subrange(4, (4 + msg.payload.len()) as int) =~= msg.payload);
}

/// A frame is cut off whole, whatever follows it.
pub proof fn law_frames_are_cut_whole(m: Noise, payload: Seq<u8>, rest: Seq<u8>)
    requires
        payload.len() <= m.limit(),
    ensures
        m.cut(framed(payload) + rest) == Cut::Payload(payload),
        (framed(payload) + rest).skip((3 + payload.len()) as int) == rest,
{
    let b = framed(payload) + rest;
    lemma_be(payload.len() as u16);
    assert(b[1] == be(payload.len() as u16)[0] && b[2] == be(payload.len() as u16)[1]);
    assert(b.subrange(3, (3 + payload.len()) as int) =~= payload);
    assert(b.skip((3 + payload.len()) as int) =~= rest);
}

/// Once the handshake is done, a data frame that opens to a message under the receive key and
/// counter gives that message, and only the counter moves on.
pub proof fn law_sealed_messages_are_received(m: Noise, cipher: Seq<u8>, msg: Raw, rest: Seq<u8>)
    requires
        m.ready(),
        cipher.len() <= MAX_DATA_FRAME,
        msg.id <= u16::MAX,
        msg.payload.len() <= u16::MAX,
        opened(m.phase->recv_key, m.phase->recv_n, cipher) == Some(packed(msg)),
    ensures
        m.decoded(framed(cipher) + rest) == (
            Noise {
                phase: Phase::Transport {
                    send_key: m.phase->send_key,
                    send_n: m.phase->send_n,
                    recv_key: m.phase->recv_key,
                    recv_n: (m.phase->recv_n + 1) as u64,
                },
                ..m
            },
            rest,
            Got::Message(msg),
        ),
{
    law_frames_are_cut_whole(m, cipher, rest);
    law_packed_messages_come_out(msg);
}

/// What one side encodes, the other decodes: the peer, whose receive key and counter are the
/// sender's send key and counter, gets the message out of what was written, whatever arrives
/// behind it, and only its counter moves on. A message that fills more than a data frame may hold
/// is left out.
pub proof fn law_encoded_messages_are_received(
    sender: Noise,
    peer: Noise,
    msg: Raw,
    w: Seq<u8>,
    rest: Seq<u8>,
)
    requires
        peer.ready(),
        sender.carried(msg, w),
        peer.phase->recv_key == sender.phase->send_key,
        peer.phase->recv_n == sender.phase->send_n,
        msg.id <= u16::MAX,
        msg.payload.len() + 20 <= MAX_DATA_FRAME,
    ensures
        peer.decoded(w + rest) == (
            Noise {
                phase: Phase::Transport {
                    send_key: peer.phase->send_key,
                    send_n: peer.phase->send_n,
                    recv_key: peer.phase->recv_key,
                    recv_n: (peer.phase->recv_n + 1) as u64,
                },
                ..peer
            },
            rest,
            Got::Message(msg),
        ),
{
    law_sealed_messages_are_received(peer, w.skip(3), msg, rest);
}

/// A part of a frame asks for more bytes and changes nothing.
pub proof fn law_part_of_a_frame_asks_for_more(m: Noise, payload: Seq<u8>, k: int)
    requires
        !(m.phase is Failed),
        payload.len() <= m.limit(),
        0 <= k < framed(payload).len(),
    ensures
        m.decoded(framed(payload).take(k)) == (m, framed(payload).take(k), Got::More),
{
    let b = framed(payload).take(k);
    lemma_be(payload.len() as u16);
    if k >= 3 {
        let f = framed(payload);
        assert(b[0] == f[0] && b[1] == f[1] && b[2] == f[2]);
        assert(f[1] == be(payload.len() as u16)[0] && f[2] == be(payload.len() as u16)[1]);
    }
}

/// A rejected connection stays rejected: whatever arrives is refused, and nothing can be sent.
pub proof fn law_rejection_is_final(m: Noise, b: Seq<u8>, msg: Raw)
    requires
        m.phase is Failed,
    ensures
        m.decoded(b) == (m, b, Got::Bad(Fault::Handshake("connection rejected"@))),
        m.encoded(msg) == (
            m,
            Err::<Seq<u8>, Fault>(Fault::Handshake("cannot send before handshake completes"@)),
        ),
{
}

/// No message gets through before a handshake that was made with the same key: a message is only
/// ever received in a state that has the keys of one, and before the handshake nothing can be
/// sent.
pub proof fn law_messages_need_the_handshake(m: Noise, b: Seq<u8>, msg: Raw)
    ensures
        m.decoded(b).2 is Message ==> m.decoded(b).0.ready(),
        !m.ready() ==> m.encoded(msg).1 is Err,
    decreases b.len(),
{
    if !(m.phase is Failed) {
        if let Cut::Payload(payload) = m.cut(b) {
            let rest = b.skip((3 + payload.len()) as int);
            match m.phase {
                Phase::ClientHello => {
                    law_messages_need_the_handshake(m.greeted(payload), rest, msg);
                },
                Phase::Handshake { prologue } => {
                    law_messages_need_the_handshake(m.shaken(prologue, payload).0, rest, msg);
                },
                _ => {},
            }
        }
    }
}

} // verus!
