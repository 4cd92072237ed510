//! Protobuf fields on the wire: how the fields of a message are laid out, and how they are found
//! again. The encodings of single fields are prost's.

use vstd::prelude::*;
use vstd::utf8::*;

use crate::api::varint;

verus! {

/// The largest field number.
pub const MAX_TAG: u32 = 0x1fff_ffff;

// ----- the encoding ------------------------------------------------------------------------------

/// The varint at the start of `b` and its length. It has at most ten bytes and fits in 64 bits.
pub open spec fn varint64(b: Seq<u8>) -> Option<(nat, nat)> {
    let k = varint::stop(b, 0);
    if k >= b.len() || k >= 10 || (k == 9 && b[9] >= 2) {
        None
    } else {
        Some((varint::groups(b, k + 1), k + 1))
    }
}

/// The key of a field: its number and its wire type.
pub open spec fn key(tag: u32, wire: u8) -> Seq<u8> {
    varint::bytes_of((tag * 8 + wire) as nat)
}

/// The key at the start of `b`: field number, wire type and length.
pub open spec fn key_of(b: Seq<u8>) -> Option<(u32, u8, nat)> {
    match varint64(b) {
        Some((v, n)) => if v <= u32::MAX && v % 8 <= 5 && v / 8 >= 1 {
            Some(((v / 8) as u32, (v % 8) as u8, n))
        } else {
            None
        },
        None => None,
    }
}

/// The length-delimited bytes at the start of `b`, and how far they and their length reach.
pub open spec fn chunk(b: Seq<u8>) -> Option<(Seq<u8>, nat)> {
    match varint64(b) {
        Some((len, n)) => if n + len <= b.len() {
            Some((b.subrange(n as int, (n + len) as int), n + len))
        } else {
            None
        },
        None => None,
    }
}

/// A length-delimited field.
pub open spec fn delimited(tag: u32, content: Seq<u8>) -> Seq<u8> {
    key(tag, 2) + varint::bytes_of(content.len()) + content
}

/// Four bytes, the lowest first.
pub open spec fn le(v: u32) -> Seq<u8> {
    seq![
        (v % 256) as u8,
        (v / 256 % 256) as u8,
        (v / 65536 % 256) as u8,
        (v / 16777216 % 256) as u8,
    ]
}

pub open spec fn from_le(b: Seq<u8>) -> u32 {
    (b[0] + 256 * b[1] + 65536 * b[2] + 16777216 * b[3]) as u32
}

/// A signed number as the varint that stands for it, sign-extended to 64 bits.
pub open spec fn signed(v: i32) -> nat {
    if v >= 0 {
        v as nat
    } else {
        (0x1_0000_0000_0000_0000 + v) as nat
    }
}

/// The signed number that the low 32 bits of a varint stand for.
pub open spec fn from_signed(v: nat) -> i32 {
    let low = v % 0x1_0000_0000;
    if low < 0x8000_0000 {
        low as i32
    } else {
        (low - 0x1_0000_0000) as i32
    }
}

/// What a field holds.
#[derive(Debug, Clone, Copy, PartialEq, Eq, Structural)]
pub enum Kind {
    /// A string.
    Text,
    /// A `bool`.
    Flag,
    /// A `uint32`.
    Uint,
    /// An `int32`, or an enumeration.
    Int,
    /// A `fixed32`.
    Fixed,
    /// A `float`, kept as the four bytes that stand for it.
    Float,
    /// Any number of strings.
    Texts,
    /// Any number of messages.
    Parts,
}

/// One occurrence of a field.
#[derive(Debug)]
pub enum Item {
    Text(String),
    Flag(bool),
    Uint(u32),
    Int(i32),
    Fixed(u32),
    Part(Vec<u8>),
}

/// An [`Item`], as contracts speak of it.
pub enum Found {
    Text(Seq<char>),
    Flag(bool),
    Uint(u32),
    Int(i32),
    Fixed(u32),
    Part(Seq<u8>),
}

impl View for Item {
    type V = Found;

    open spec fn view(&self) -> Found {
        match self {
            Item::Text(s) => Found::Text(s@),
            Item::Flag(b) => Found::Flag(*b),
            Item::Uint(v) => Found::Uint(*v),
            Item::Int(v) => Found::Int(*v),
            Item::Fixed(v) => Found::Fixed(*v),
            Item::Part(v) => Found::Part(v@),
        }
    }
}

/// The occurrence of a field of the given kind at the start of `b`, behind its key, and its
/// length. The wire type has to be that of the kind, and a string has to be UTF-8.
pub open spec fn item_of(kind: Kind, wire: u8, b: Seq<u8>) -> Option<(Found, nat)> {
    match kind {
        Kind::Text | Kind::Texts => match chunk(b) {
            Some((content, n)) => if wire == 2 && valid_utf8(content) {
                Some((Found::Text(decode_utf8(content)), n))
            } else {
                None
            },
            None => None,
        },
        Kind::Parts => match chunk(b) {
            Some((content, n)) => if wire == 2 {
                Some((Found::Part(content), n))
            } else {
                None
            },
            None => None,
        },
        Kind::Flag => match varint64(b) {
            Some((v, n)) => if wire == 0 {
                Some((Found::Flag(v != 0), n))
            } else {
                None
            },
            None => None,
        },
        Kind::Uint => match varint64(b) {
            Some((v, n)) => if wire == 0 {
                Some((Found::Uint((v % 0x1_0000_0000) as u32), n))
            } else {
                None
            },
            None => None,
        },
        Kind::Int => match varint64(b) {
            Some((v, n)) => if wire == 0 {
                Some((Found::Int(from_signed(v)), n))
            } else {
                None
            },
            None => None,
        },
        Kind::Fixed | Kind::Float => if wire == 5 && b.len() >= 4 {
            Some((Found::Fixed(from_le(b)), 4))
        } else {
            None
        },
    }
}

/// How far a group reaches that has been opened by the given field number, if the bytes hold its
/// end and what prost lets stand in it.
pub uninterp spec fn group_end(tag: u32, b: Seq<u8>) -> Option<nat>;

/// How far a field reaches whose number is not known.
pub open spec fn skipped(wire: u8, tag: u32, b: Seq<u8>) -> Option<nat> {
    if wire == 0 {
        match varint64(b) {
            Some((v, n)) => Some(n),
            None => None,
        }
    } else if wire == 1 && b.len() >= 8 {
        Some(8)
    } else if wire == 2 {
        match chunk(b) {
            Some((content, n)) => Some(n),
            None => None,
        }
    } else if wire == 3 {
        match group_end(tag, b) {
            Some(n) => if n <= b.len() {
                Some(n)
            } else {
                None
            },
            None => None,
        }
    } else if wire == 5 && b.len() >= 4 {
        Some(4)
    } else {
        None
    }
}

/// How far such a field reaches in a message that stands inside another one. How deep groups may
/// be nested counts from the outer message, so inside it a group has one level less: it has to be
/// readable with another group round it.
pub open spec fn skipped_inside(wire: u8, tag: u32, b: Seq<u8>) -> Option<nat> {
    match skipped(wire, tag, b) {
        Some(n) => if wire == 3 && group_end(tag, key(tag, 3) + b.take(n as int) + key(tag, 4))
            is None {
            None
        } else {
            Some(n)
        },
        None => None,
    }
}

// ----- prost -------------------------------------------------------------------------------------

/// `prost::encoding::string::encode` appends a string field: key, length and UTF-8 bytes.
#[verifier::external_body]
pub(crate) fn put_string(tag: u32, value: &String, buf: &mut Vec<u8>)
    requires
        1 <= tag <= MAX_TAG,
    ensures
        final(buf)@ == old(buf)@ + delimited(tag, encode_utf8(value@)),
{
    prost::encoding::string::encode(tag, value, buf)
}

/// `prost::encoding::bytes::encode` appends a field of raw bytes: key, length and the bytes.
#[verifier::external_body]
pub(crate) fn put_bytes(tag: u32, value: &Vec<u8>, buf: &mut Vec<u8>)
    requires
        1 <= tag <= MAX_TAG,
    ensures
        final(buf)@ == old(buf)@ + delimited(tag, value@),
{
    prost::encoding::bytes::encode(tag, value, buf)
}

/// `prost::encoding::bool::encode` appends a `bool` field: key, and 1 or 0.
#[verifier::external_body]
pub(crate) fn put_bool(tag: u32, value: bool, buf: &mut Vec<u8>)
    requires
        1 <= tag <= MAX_TAG,
    ensures
        final(buf)@ == old(buf)@ + key(tag, 0) + varint::bytes_of(
            if value {
                1
            } else {
                0
            },
        ),
{
    prost::encoding::bool::encode(tag, &value, buf)
}

/// `prost::encoding::uint32::encode` appends a `uint32` field: key and varint.
#[verifier::external_body]
pub(crate) fn put_uint32(tag: u32, value: u32, buf: &mut Vec<u8>)
    requires
        1 <= tag <= MAX_TAG,
    ensures
        final(buf)@ == old(buf)@ + key(tag, 0) + varint::bytes_of(value as nat),
{
    prost::encoding::uint32::encode(tag, &value, buf)
}

/// `prost::encoding::int32::encode` appends an `int32` field: key, and the varint of the number
/// sign-extended to 64 bits.
#[verifier::external_body]
pub(crate) fn put_int32(tag: u32, value: i32, buf: &mut Vec<u8>)
    requires
        1 <= tag <= MAX_TAG,
    ensures
        final(buf)@ == old(buf)@ + key(tag, 0) + varint::bytes_of(signed(value)),
{
    prost::encoding::int32::encode(tag, &value, buf)
}

/// `prost::encoding::fixed32::encode` appends a `fixed32` field: key and four bytes, the lowest
/// first.
#[verifier::external_body]
pub(crate) fn put_fixed32(tag: u32, value: u32, buf: &mut Vec<u8>)
    requires
        1 <= tag <= MAX_TAG,
    ensures
        final(buf)@ == old(buf)@ + key(tag, 5) + le(value),
{
    prost::encoding::fixed32::encode(tag, &value, buf)
}

/// `prost::encoding::decode_key` takes a key off the front: a varint that holds field number and
/// wire type. It fails on a bad varint, on more than 32 bits, on an unknown wire type and on
/// field number 0.
#[verifier::external_body]
pub(crate) fn take_key(buf: &[u8]) -> (r: Result<(u32, u8, &[u8]), prost::DecodeError>)
    ensures
        match key_of(buf@) {
            Some((tag, wire, n)) => r is Ok && r->Ok_0.0 == tag && r->Ok_0.1 == wire
                && r->Ok_0.2@ == buf@.skip(n as int),
            None => r is Err,
        },
{
    let mut rest = buf;
    let (tag, wire) = prost::encoding::decode_key(&mut rest)?;
    Ok((tag, wire as u8, rest))
}

/// `prost::encoding::string::merge` takes the content of a string field off the front. It fails
/// on another wire type, on a bad length, and on bytes that are not UTF-8.
#[verifier::external_body]
pub(crate) fn take_string(wire: u8, buf: &[u8]) -> (r: Result<(String, &[u8]), prost::DecodeError>)
    ensures
        match item_of(Kind::Text, wire, buf@) {
            Some((item, n)) => r is Ok && Found::Text(r->Ok_0.0@) == item && r->Ok_0.1@
                == buf@.skip(n as int),
            None => r is Err,
        },
{
    let wire = prost::encoding::WireType::try_from(u64::from(wire))?;
    let (mut value, mut rest) = (String::new(), buf);
    prost::encoding::string::merge(wire, &mut value, &mut rest, Default::default())?;
    Ok((value, rest))
}

/// `prost::encoding::bytes::merge` takes the content of a field of raw bytes off the front. It
/// fails on another wire type and on a bad length.
#[verifier::external_body]
pub(crate) fn take_bytes(wire: u8, buf: &[u8]) -> (r: Result<(Vec<u8>, &[u8]), prost::DecodeError>)
    ensures
        match item_of(Kind::Parts, wire, buf@) {
            Some((item, n)) => r is Ok && Found::Part(r->Ok_0.0@) == item && r->Ok_0.1@
                == buf@.skip(n as int),
            None => r is Err,
        },
{
    let wire = prost::encoding::WireType::try_from(u64::from(wire))?;
    let (mut value, mut rest) = (Vec::<u8>::new(), buf);
    prost::encoding::bytes::merge(wire, &mut value, &mut rest, Default::default())?;
    Ok((value, rest))
}

/// `prost::encoding::bool::merge` takes the varint of a `bool` field off the front: anything but
/// 0 is true. It fails on another wire type and on a bad varint.
#[verifier::external_body]
pub(crate) fn take_bool(wire: u8, buf: &[u8]) -> (r: Result<(bool, &[u8]), prost::DecodeError>)
    ensures
        match item_of(Kind::Flag, wire, buf@) {
            Some((item, n)) => r is Ok && Found::Flag(r->Ok_0.0) == item && r->Ok_0.1@
                == buf@.skip(n as int),
            None => r is Err,
        },
{
    let wire = prost::encoding::WireType::try_from(u64::from(wire))?;
    let (mut value, mut rest) = (false, buf);
    prost::encoding::bool::merge(wire, &mut value, &mut rest, Default::default())?;
    Ok((value, rest))
}

/// `prost::encoding::uint32::merge` takes the varint of a `uint32` field off the front and keeps
/// its low 32 bits. It fails on another wire type and on a bad varint.
#[verifier::external_body]
pub(crate) fn take_uint32(wire: u8, buf: &[u8]) -> (r: Result<(u32, &[u8]), prost::DecodeError>)
    ensures
        match item_of(Kind::Uint, wire, buf@) {
            Some((item, n)) => r is Ok && Found::Uint(r->Ok_0.0) == item && r->Ok_0.1@
                == buf@.skip(n as int),
            None => r is Err,
        },
{
    let wire = prost::encoding::WireType::try_from(u64::from(wire))?;
    let (mut value, mut rest) = (0u32, buf);
    prost::encoding::uint32::merge(wire, &mut value, &mut rest, Default::default())?;
    Ok((value, rest))
}

/// `prost::encoding::int32::merge` takes the varint of an `int32` field off the front and keeps
/// its low 32 bits, as a signed number. It fails on another wire type and on a bad varint.
#[verifier::external_body]
pub(crate) fn take_int32(wire: u8, buf: &[u8]) -> (r: Result<(i32, &[u8]), prost::DecodeError>)
    ensures
        match item_of(Kind::Int, wire, buf@) {
            Some((item, n)) => r is Ok && Found::Int(r->Ok_0.0) == item && r->Ok_0.1@
                == buf@.skip(n as int),
            None => r is Err,
        },
{
    let wire = prost::encoding::WireType::try_from(u64::from(wire))?;
    let (mut value, mut rest) = (0i32, buf);
    prost::encoding::int32::merge(wire, &mut value, &mut rest, Default::default())?;
    Ok((value, rest))
}

/// `prost::encoding::fixed32::merge` takes four bytes off the front, the lowest first. It fails
/// on another wire type and where there are fewer.
#[verifier::external_body]
pub(crate) fn take_fixed32(wire: u8, buf: &[u8]) -> (r: Result<(u32, &[u8]), prost::DecodeError>)
    ensures
        match item_of(Kind::Fixed, wire, buf@) {
            Some((item, n)) => r is Ok && Found::Fixed(r->Ok_0.0) == item && r->Ok_0.1@
                == buf@.skip(n as int),
            None => r is Err,
        },
{
    let wire = prost::encoding::WireType::try_from(u64::from(wire))?;
    let (mut value, mut rest) = (0u32, buf);
    prost::encoding::fixed32::merge(wire, &mut value, &mut rest, Default::default())?;
    Ok((value, rest))
}

/// `prost::encoding::skip_field` takes a field off the front whatever it holds: a varint, four or
/// eight bytes, or a length and as many bytes. It fails where they are not there, and on the end
/// of a group. Where a group ends, it finds out itself.
#[verifier::external_body]
pub(crate) fn take_unknown(wire: u8, tag: u32, buf: &[u8]) -> (r: Result<&[u8], prost::DecodeError>)
    ensures
        wire != 3 ==> match skipped(wire, tag, buf@) {
            Some(n) => r is Ok && r->Ok_0@ == buf@.skip(n as int),
            None => r is Err,
        },
        wire == 3 ==> match group_end(tag, buf@) {
            Some(n) => r is Ok && n <= buf@.len() && r->Ok_0@ == buf@.skip(n as int),
            None => r is Err,
        },
{
    let wire = prost::encoding::WireType::try_from(u64::from(wire))?;
    let mut rest = buf;
    prost::encoding::skip_field(wire, tag, &mut rest, Default::default())?;
    Ok(rest)
}

/// Take a field whose number is not known off the front, in a message that stands inside another
/// one.
pub(crate) fn take_unknown_inside(wire: u8, tag: u32, buf: &[u8]) -> (r: Result<
    &[u8],
    prost::DecodeError,
>)
    requires
        tag <= MAX_TAG,
    ensures
        match skipped_inside(wire, tag, buf@) {
            Some(n) => r is Ok && r->Ok_0@ == buf@.skip(n as int),
            None => r is Err,
        },
{
    let rest = match take_unknown(wire, tag, buf) {
        Ok(rest) => rest,
        Err(e) => return Err(e),
    };
    if wire == 3 {
        let n: usize = buf.len() - rest.len();
        let mut outer: Vec<u8> = Vec::new();
        varint::encode(tag * 8 + 3, &mut outer);
        outer.extend_from_slice(vstd::slice::slice_subrange(buf, 0, n));
        varint::encode(tag * 8 + 4, &mut outer);
        assert(buf@.subrange(0, n as int) =~= buf@.take(n as int));
        assert(outer@ =~= key(tag, 3) + buf@.take(n as int) + key(tag, 4));
        match take_unknown(3, tag, outer.as_slice()) {
            Ok(_) => {},
            Err(e) => return Err(e),
        }
    }
    Ok(rest)
}

} // verus!
