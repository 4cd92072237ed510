//! Protobuf messages: a message is described by its fields, in the order in which they are
//! written, and by what each of them holds.

use vstd::prelude::*;
use vstd::utf8::*;

use crate::api::error::{Error, Fault};
use crate::api::varint;
use crate::api::wire;
use crate::api::wire::{Found, Item, Kind};

verus! {

/// A field of a message: its number and what it holds.
#[derive(Debug, Clone, Copy, PartialEq, Eq, Structural)]
pub struct Slot {
    pub tag: u32,
    pub kind: Kind,
}

/// What a field holds in a given message. The values of messages inside a message are those of
/// their fields.
pub enum Value {
    Text(Seq<char>),
    Flag(bool),
    Uint(u32),
    Int(i32),
    Fixed(u32),
    Float(u32),
    Texts(Seq<Seq<char>>),
    Parts(Seq<Seq<Value>>),
}

// ----- writing -----------------------------------------------------------------------------------

/// A field that occurs at most once. It is left out where it holds its default: nothing, false
/// or zero.
pub open spec fn flat_field(slot: Slot, v: Value) -> Seq<u8> {
    match v {
        Value::Text(s) => if s.len() == 0 {
            seq![]
        } else {
            wire::delimited(slot.tag, encode_utf8(s))
        },
        Value::Flag(b) => if !b {
            seq![]
        } else {
            wire::key(slot.tag, 0) + varint::bytes_of(1)
        },
        Value::Uint(n) => if n == 0 {
            seq![]
        } else {
            wire::key(slot.tag, 0) + varint::bytes_of(n as nat)
        },
        Value::Int(n) => if n == 0 {
            seq![]
        } else {
            wire::key(slot.tag, 0) + varint::bytes_of(wire::signed(n))
        },
        Value::Fixed(n) => if n == 0 {
            seq![]
        } else {
            wire::key(slot.tag, 5) + wire::le(n)
        },
        Value::Float(n) => if is_zero(n) {
            seq![]
        } else {
            wire::key(slot.tag, 5) + wire::le(n)
        },
        _ => seq![],
    }
}

/// The bytes stand for the number zero, with either sign.
pub open spec fn is_zero(float: u32) -> bool {
    float == 0 || float == 0x8000_0000
}

/// The first `n` strings as fields.
pub open spec fn text_fields(tag: u32, texts: Seq<Seq<char>>, n: nat) -> Seq<u8>
    decreases n,
{
    if n == 0 {
        seq![]
    } else {
        text_fields(tag, texts, (n - 1) as nat) + wire::delimited(tag, encode_utf8(texts[n - 1]))
    }
}

/// The first `n` fields of a message, none of which holds messages or more than one string.
pub open spec fn flat_fields(slots: Seq<Slot>, values: Seq<Value>, n: nat) -> Seq<u8>
    decreases n,
{
    if n == 0 {
        seq![]
    } else {
        flat_fields(slots, values, (n - 1) as nat) + flat_field(slots[n - 1], values[n - 1])
    }
}

/// The first `n` messages as fields.
pub open spec fn part_fields(
    tag: u32,
    part: Seq<Slot>,
    parts: Seq<Seq<Value>>,
    n: nat,
) -> Seq<u8>
    decreases n,
{
    if n == 0 {
        seq![]
    } else {
        part_fields(tag, part, parts, (n - 1) as nat) + wire::delimited(
            tag,
            flat_fields(part, parts[n - 1], part.len()),
        )
    }
}

/// Any field of a message whose inner messages have the fields `part`.
pub open spec fn field(slot: Slot, part: Seq<Slot>, v: Value) -> Seq<u8> {
    match v {
        Value::Texts(texts) => text_fields(slot.tag, texts, texts.len()),
        Value::Parts(parts) => part_fields(slot.tag, part, parts, parts.len()),
        _ => flat_field(slot, v),
    }
}

/// The first `n` fields of a message.
pub open spec fn fields(slots: Seq<Slot>, part: Seq<Slot>, values: Seq<Value>, n: nat) -> Seq<u8>
    decreases n,
{
    if n == 0 {
        seq![]
    } else {
        fields(slots, part, values, (n - 1) as nat) + field(slots[n - 1], part, values[n - 1])
    }
}

/// A message on the wire.
pub open spec fn written(slots: Seq<Slot>, part: Seq<Slot>, values: Seq<Value>) -> Seq<u8> {
    fields(slots, part, values, slots.len())
}

// ----- reading -----------------------------------------------------------------------------------

/// What the field with the given number holds, if it is one of the message's.
pub open spec fn kind_of(slots: Seq<Slot>, tag: u32) -> Option<Kind>
    decreases slots.len(),
{
    if slots.len() == 0 {
        None
    } else if slots[0].tag == tag {
        Some(slots[0].kind)
    } else {
        kind_of(slots.skip(1), tag)
    }
}

/// How far a field reaches that is none of the message's.
pub open spec fn unknown(w: u8, tag: u32, b: Seq<u8>, inner: bool) -> Option<nat> {
    if inner {
        wire::skipped_inside(w, tag, b)
    } else {
        wire::skipped(w, tag, b)
    }
}

/// The occurrences of the message's fields in `b`, in order. Other fields are skipped. `None` if
/// `b` is no sequence of fields, or a field of the message does not hold what it should. `inner`
/// says that the message stands inside another one.
pub open spec fn found(slots: Seq<Slot>, b: Seq<u8>, inner: bool) -> Option<Seq<(u32, Found)>>
    decreases b.len(),
{
    if b.len() == 0 {
        Some(seq![])
    } else {
        match wire::key_of(b) {
            Some((tag, w, n)) => {
                let rest = b.skip(n as int);
                match kind_of(slots, tag) {
                    Some(kind) => match wire::item_of(kind, w, rest) {
                        Some((item, m)) => if n + m <= b.len() && n > 0 {
                            match found(slots, rest.skip(m as int), inner) {
                                Some(more) => Some(seq![(tag, item)] + more),
                                None => None,
                            }
                        } else {
                            None
                        },
                        None => None,
                    },
                    None => match unknown(w, tag, rest, inner) {
                        Some(m) => if n + m <= b.len() && n > 0 {
                            found(slots, rest.skip(m as int), inner)
                        } else {
                            None
                        },
                        None => None,
                    },
                }
            },
            None => None,
        }
    }
}

/// The last occurrence of a field counts.
pub open spec fn last(items: Seq<(u32, Found)>, tag: u32) -> Option<Found>
    decreases items.len(),
{
    if items.len() == 0 {
        None
    } else if items.last().0 == tag {
        Some(items.last().1)
    } else {
        last(items.drop_last(), tag)
    }
}

/// All strings of a field, in order.
pub open spec fn texts(items: Seq<(u32, Found)>, tag: u32) -> Seq<Seq<char>>
    decreases items.len(),
{
    if items.len() == 0 {
        seq![]
    } else {
        let rest = texts(items.drop_last(), tag);
        match items.last().1 {
            Found::Text(s) => if items.last().0 == tag {
                rest.push(s)
            } else {
                rest
            },
            _ => rest,
        }
    }
}

/// All messages of a field, in order, as bytes.
pub open spec fn parts(items: Seq<(u32, Found)>, tag: u32) -> Seq<Seq<u8>>
    decreases items.len(),
{
    if items.len() == 0 {
        seq![]
    } else {
        let rest = parts(items.drop_last(), tag);
        match items.last().1 {
            Found::Part(b) => if items.last().0 == tag {
                rest.push(b)
            } else {
                rest
            },
            _ => rest,
        }
    }
}

pub open spec fn text(items: Seq<(u32, Found)>, tag: u32) -> Seq<char> {
    match last(items, tag) {
        Some(Found::Text(s)) => s,
        _ => seq![],
    }
}

pub open spec fn flag(items: Seq<(u32, Found)>, tag: u32) -> bool {
    match last(items, tag) {
        Some(Found::Flag(b)) => b,
        _ => false,
    }
}

pub open spec fn uint(items: Seq<(u32, Found)>, tag: u32) -> u32 {
    match last(items, tag) {
        Some(Found::Uint(n)) => n,
        _ => 0,
    }
}

pub open spec fn signed(items: Seq<(u32, Found)>, tag: u32) -> i32 {
    match last(items, tag) {
        Some(Found::Int(n)) => n,
        _ => 0,
    }
}

pub open spec fn fixed(items: Seq<(u32, Found)>, tag: u32) -> u32 {
    match last(items, tag) {
        Some(Found::Fixed(n)) => n,
        _ => 0,
    }
}

/// What a field holds, given its occurrences: its default if there is none.
pub open spec fn flat_value(slot: Slot, items: Seq<(u32, Found)>) -> Value {
    match slot.kind {
        Kind::Text => Value::Text(text(items, slot.tag)),
        Kind::Flag => Value::Flag(flag(items, slot.tag)),
        Kind::Uint => Value::Uint(uint(items, slot.tag)),
        Kind::Int => Value::Int(signed(items, slot.tag)),
        Kind::Fixed => Value::Fixed(fixed(items, slot.tag)),
        Kind::Float => Value::Float(fixed(items, slot.tag)),
        Kind::Texts => Value::Texts(texts(items, slot.tag)),
        Kind::Parts => Value::Parts(seq![]),
    }
}

/// A message that stands inside another one, as its fields' values.
pub open spec fn flat_read(slots: Seq<Slot>, b: Seq<u8>) -> Option<Seq<Value>> {
    match found(slots, b, true) {
        Some(items) => Some(Seq::new(slots.len(), |i: int| flat_value(slots[i], items))),
        None => None,
    }
}

pub open spec fn value(slot: Slot, part: Seq<Slot>, items: Seq<(u32, Found)>) -> Value {
    if slot.kind == Kind::Parts {
        Value::Parts(parts(items, slot.tag).map_values(|b: Seq<u8>| flat_read(part, b)->0))
    } else {
        flat_value(slot, items)
    }
}

/// Every inner message can be read.
pub open spec fn parts_readable(part: Seq<Slot>, items: Seq<(u32, Found)>) -> bool {
    forall|i: int|
        0 <= i < items.len() ==> (#[trigger] items[i].1 matches Found::Part(b) ==> flat_read(
            part,
            b,
        ) is Some)
}

/// A message, as its fields' values. `None` if the bytes are no such message.
pub open spec fn read(slots: Seq<Slot>, part: Seq<Slot>, b: Seq<u8>) -> Option<Seq<Value>> {
    match found(slots, b, false) {
        Some(items) => if parts_readable(part, items) {
            Some(Seq::new(slots.len(), |i: int| value(slots[i], part, items)))
        } else {
            None
        },
        None => None,
    }
}

// ----- messages ----------------------------------------------------------------------------------

/// The field numbers are in range, and none is used twice.
pub open spec fn distinct(slots: Seq<Slot>) -> bool {
    &&& forall|i: int| 0 <= i < slots.len() ==> 1 <= #[trigger] slots[i].tag <= wire::MAX_TAG
    &&& forall|i: int, j: int|
        0 <= i < j < slots.len() ==> #[trigger] slots[i].tag != #[trigger] slots[j].tag
}

/// The value is of the field's kind, and a single one.
pub open spec fn fits_flat(slot: Slot, v: Value) -> bool {
    match v {
        Value::Text(s) => slot.kind == Kind::Text,
        Value::Flag(b) => slot.kind == Kind::Flag,
        Value::Uint(n) => slot.kind == Kind::Uint,
        Value::Int(n) => slot.kind == Kind::Int,
        Value::Fixed(n) => slot.kind == Kind::Fixed,
        Value::Float(n) => slot.kind == Kind::Float,
        _ => false,
    }
}

/// The values are of the fields' kinds, and single ones.
pub open spec fn all_fit_flat(slots: Seq<Slot>, values: Seq<Value>) -> bool {
    &&& values.len() == slots.len()
    &&& forall|i: int| 0 <= i < slots.len() ==> #[trigger] fits_flat(slots[i], values[i])
}

/// The value is of the field's kind.
pub open spec fn fits(slot: Slot, part: Seq<Slot>, v: Value) -> bool {
    match v {
        Value::Texts(texts) => slot.kind == Kind::Texts,
        Value::Parts(parts) => slot.kind == Kind::Parts && forall|i: int|
            0 <= i < parts.len() ==> all_fit_flat(part, #[trigger] parts[i]),
        _ => fits_flat(slot, v),
    }
}

/// A message in order: fields numbered apart, and values of the fields' kinds.
pub open spec fn laid_out(slots: Seq<Slot>, part: Seq<Slot>, values: Seq<Value>) -> bool {
    &&& distinct(slots)
    &&& distinct(part)
    &&& values.len() == slots.len()
    &&& forall|i: int| 0 <= i < slots.len() ==> #[trigger] fits(slots[i], part, values[i])
}

/// Every API message carries a numeric type id.
pub trait ApiMessage: Sized {
    const ID: u32;

    /// The number that stands for the message's type.
    spec fn id() -> u32;

    proof fn lemma_id()
        ensures
            Self::ID == Self::id(),
    ;

    /// The message's fields in the order in which they are written.
    spec fn slots() -> Seq<Slot>;

    /// The fields of the messages inside the message.
    spec fn part() -> Seq<Slot>;

    /// What each field holds.
    spec fn values(&self) -> Seq<Value>;

    proof fn lemma_laid_out(&self)
        ensures
            laid_out(Self::slots(), Self::part(), self.values()),
    ;

    /// The message on the wire.
    fn encode_to_vec(&self) -> (r: Vec<u8>)
        ensures
            r@ == written(Self::slots(), Self::part(), self.values()),
    ;

    /// The message that the bytes hold.
    fn decode(buf: &[u8]) -> (r: Result<Self, Error>)
        ensures
            match read(Self::slots(), Self::part(), buf@) {
                Some(values) => r is Ok && r->Ok_0.values() == values,
                None => r is Err && r->Err_0@ == Fault::Decode,
            },
    ;
}

// ----- writing fields ------------------------------------------------------------------------------

pub fn put_text(tag: u32, v: &String, out: &mut Vec<u8>)
    requires
        1 <= tag <= wire::MAX_TAG,
    ensures
        final(out)@ == old(out)@ + flat_field(Slot { tag, kind: Kind::Text }, Value::Text(v@)),
{
    if v.as_str().is_empty() {
        assert(old(out)@ =~= old(out)@ + Seq::<u8>::empty());
    } else {
        wire::put_string(tag, v, out);
    }
}

pub fn put_flag(tag: u32, v: bool, out: &mut Vec<u8>)
    requires
        1 <= tag <= wire::MAX_TAG,
    ensures
        final(out)@ == old(out)@ + flat_field(Slot { tag, kind: Kind::Flag }, Value::Flag(v)),
{
    if v {
        wire::put_bool(tag, v, out);
        assert(out@ =~= old(out)@ + (wire::key(tag, 0) + varint::bytes_of(1)));
    } else {
        assert(old(out)@ =~= old(out)@ + Seq::<u8>::empty());
    }
}

pub fn put_uint(tag: u32, v: u32, out: &mut Vec<u8>)
    requires
        1 <= tag <= wire::MAX_TAG,
    ensures
        final(out)@ == old(out)@ + flat_field(Slot { tag, kind: Kind::Uint }, Value::Uint(v)),
{
    if v != 0 {
        wire::put_uint32(tag, v, out);
        assert(out@ =~= old(out)@ + (wire::key(tag, 0) + varint::bytes_of(v as nat)));
    } else {
        assert(old(out)@ =~= old(out)@ + Seq::<u8>::empty());
    }
}

pub fn put_int(tag: u32, v: i32, out: &mut Vec<u8>)
    requires
        1 <= tag <= wire::MAX_TAG,
    ensures
        final(out)@ == old(out)@ + flat_field(Slot { tag, kind: Kind::Int }, Value::Int(v)),
{
    if v != 0 {
        wire::put_int32(tag, v, out);
        assert(out@ =~= old(out)@ + (wire::key(tag, 0) + varint::bytes_of(wire::signed(v))));
    } else {
        assert(old(out)@ =~= old(out)@ + Seq::<u8>::empty());
    }
}

pub fn put_fixed(tag: u32, v: u32, out: &mut Vec<u8>)
    requires
        1 <= tag <= wire::MAX_TAG,
    ensures
        final(out)@ == old(out)@ + flat_field(Slot { tag, kind: Kind::Fixed }, Value::Fixed(v)),
{
    if v != 0 {
        wire::put_fixed32(tag, v, out);
        assert(out@ =~= old(out)@ + (wire::key(tag, 5) + wire::le(v)));
    } else {
        assert(old(out)@ =~= old(out)@ + Seq::<u8>::empty());
    }
}

/// A float, given as the four bytes that stand for it.
pub fn put_float(tag: u32, v: u32, out: &mut Vec<u8>)
    requires
        1 <= tag <= wire::MAX_TAG,
    ensures
        final(out)@ == old(out)@ + flat_field(Slot { tag, kind: Kind::Float }, Value::Float(v)),
{
    if v != 0 && v != 0x8000_0000 {
        wire::put_fixed32(tag, v, out);
        assert(out@ =~= old(out)@ + (wire::key(tag, 5) + wire::le(v)));
    } else {
        assert(old(out)@ =~= old(out)@ + Seq::<u8>::empty());
    }
}

/// The strings' contents.
pub open spec fn chars(v: Seq<String>) -> Seq<Seq<char>> {
    v.map_values(|s: String| s@)
}

pub fn put_texts(tag: u32, v: &Vec<String>, out: &mut Vec<u8>)
    requires
        1 <= tag <= wire::MAX_TAG,
    ensures
        final(out)@ == old(out)@ + text_fields(tag, chars(v@), v@.len()),
{
    let ghost start = out@;
    let mut i: usize = 0;
    assert(start =~= start + text_fields(tag, chars(v@), 0));
    while i < v.len()
        invariant
            1 <= tag <= wire::MAX_TAG,
            i <= v@.len(),
            out@ == start + text_fields(tag, chars(v@), i as nat),
        decreases v.len() - i,
    {
        wire::put_string(tag, &v[i], out);
        i += 1;
        assert(out@ =~= start + text_fields(tag, chars(v@), i as nat));
    }
}

// ----- reading fields ------------------------------------------------------------------------------

/// The occurrences of a message's fields.
pub struct Fields {
    items: Vec<(u32, Item)>,
}

impl View for Fields {
    type V = Seq<(u32, Found)>;

    closed spec fn view(&self) -> Seq<(u32, Found)> {
        self.items@.map_values(|x: (u32, Item)| (x.0, x.1@))
    }
}

fn slot_kind(slots: &Vec<Slot>, tag: u32) -> (r: Option<Kind>)
    ensures
        r == kind_of(slots@, tag),
{
    let mut i: usize = 0;
    assert(slots@.skip(0) =~= slots@);
    while i < slots.len()
        invariant
            i <= slots@.len(),
            kind_of(slots@, tag) == kind_of(slots@.skip(i as int), tag),
        decreases slots.len() - i,
    {
        assert(slots@.skip(i as int).skip(1) =~= slots@.skip(i + 1));
        if slots[i].tag == tag {
            return Some(slots[i].kind);
        }
        i += 1;
    }
    None
}

fn take_item(kind: Kind, w: u8, buf: &[u8]) -> (r: Result<(Item, &[u8]), prost::DecodeError>)
    ensures
        match wire::item_of(kind, w, buf@) {
            Some((item, n)) => r is Ok && r->Ok_0.0@ == item && r->Ok_0.1@ == buf@.skip(n as int),
            None => r is Err,
        },
{
    match kind {
        Kind::Text | Kind::Texts => match wire::take_string(w, buf) {
            Ok((v, rest)) => Ok((Item::Text(v), rest)),
            Err(e) => Err(e),
        },
        Kind::Flag => match wire::take_bool(w, buf) {
            Ok((v, rest)) => Ok((Item::Flag(v), rest)),
            Err(e) => Err(e),
        },
        Kind::Uint => match wire::take_uint32(w, buf) {
            Ok((v, rest)) => Ok((Item::Uint(v), rest)),
            Err(e) => Err(e),
        },
        Kind::Int => match wire::take_int32(w, buf) {
            Ok((v, rest)) => Ok((Item::Int(v), rest)),
            Err(e) => Err(e),
        },
        Kind::Fixed | Kind::Float => match wire::take_fixed32(w, buf) {
            Ok((v, rest)) => Ok((Item::Fixed(v), rest)),
            Err(e) => Err(e),
        },
        Kind::Parts => match wire::take_bytes(w, buf) {
            Ok((v, rest)) => Ok((Item::Part(v), rest)),
            Err(e) => Err(e),
        },
    }
}

/// Keys are not empty, and nothing that is read reaches beyond the end.
proof fn lemma_in_bounds(kind: Kind, w: u8, tag: u32, b: Seq<u8>)
    ensures
        wire::key_of(b) matches Some((t, k, n)) ==> 1 <= n <= b.len() && 1 <= t <= wire::MAX_TAG,
        wire::item_of(kind, w, b) matches Some((item, n)) ==> n <= b.len(),
        forall|inner: bool| #[trigger] unknown(w, tag, b, inner) matches Some(n) ==> n <= b.len(),
{
    varint::lemma_stop_bounds(b, 0);
}

/// Find the fields with the given numbers in a message, in order.
pub fn find(slots: &Vec<Slot>, buf: &[u8]) -> (r: Result<Fields, Error>)
    ensures
        match found(slots@, buf@, false) {
            Some(items) => r is Ok && r->Ok_0@ == items,
            None => r is Err && r->Err_0@ == Fault::Decode,
        },
{
    find_at(slots, buf, false)
}

/// The same in a message that stands inside another one.
pub fn find_inside(slots: &Vec<Slot>, buf: &[u8]) -> (r: Result<Fields, Error>)
    ensures
        match found(slots@, buf@, true) {
            Some(items) => r is Ok && r->Ok_0@ == items,
            None => r is Err && r->Err_0@ == Fault::Decode,
        },
{
    find_at(slots, buf, true)
}

fn find_at(slots: &Vec<Slot>, buf: &[u8], inner: bool) -> (r: Result<Fields, Error>)
    ensures
        match found(slots@, buf@, inner) {
            Some(items) => r is Ok && r->Ok_0@ == items,
            None => r is Err && r->Err_0@ == Fault::Decode,
        },
{
    let mut items: Vec<(u32, Item)> = Vec::new();
    let mut rest: &[u8] = buf;
    let ghost mut got: Seq<(u32, Found)> = seq![];
    let ghost all = found(slots@, buf@, inner);
    proof {
        if all is Some {
            assert(got + all->0 =~= all->0);
        }
    }
    while rest.len() > 0
        invariant
            got == items@.map_values(|x: (u32, Item)| (x.0, x.1@)),
            all == found(slots@, buf@, inner),
            match found(slots@, rest@, inner) {
                Some(more) => all == Some(got + more),
                None => all is None,
            },
        decreases rest@.len(),
    {
        let ghost b = rest@;
        let (tag, w, after) = match wire::take_key(rest) {
            Ok(k) => k,
            Err(e) => return Err(Error::Decode(e)),
        };
        let kind = slot_kind(slots, tag);
        proof {
            lemma_in_bounds(Kind::Text, w, tag, b);
            lemma_in_bounds(
                match kind {
                    Some(k) => k,
                    None => Kind::Text,
                },
                w,
                tag,
                after@,
            );
            assert(unknown(w, tag, after@, inner) matches Some(n) ==> n <= after@.len());
        }
        match kind {
            Some(kind) => match take_item(kind, w, after) {
                Ok((item, left)) => {
                    proof {
                        let step = seq![(tag, item@)];
                        if found(slots@, left@, inner) is Some {
                            let more = found(slots@, left@, inner)->0;
                            assert(got + (step + more) =~= got.push((tag, item@)) + more);
                        }
                        got = got.push((tag, item@));
                    }
                    items.push((tag, item));
                    assert(got =~= items@.map_values(|x: (u32, Item)| (x.0, x.1@)));
                    rest = left;
                },
                Err(e) => return Err(Error::Decode(e)),
            },
            None => {
                let left = if inner {
                    wire::take_unknown_inside(w, tag, after)
                } else {
                    wire::take_unknown(w, tag, after)
                };
                match left {
                    Ok(left) => {
                        rest = left;
                    },
                    Err(e) => return Err(Error::Decode(e)),
                }
            },
        }
    }
    assert(got + Seq::<(u32, Found)>::empty() =~= got);
    Ok(Fields { items })
}

impl Fields {
    /// The last occurrence of a field.
    fn last(&self, tag: u32) -> (r: Option<&Item>)
        ensures
            match last(self@, tag) {
                Some(v) => r is Some && r->0@ == v,
                None => r is None,
            },
    {
        let mut i: usize = self.items.len();
        assert(self@.take(i as int) =~= self@);
        while i > 0
            invariant
                i <= self.items@.len(),
                last(self@, tag) == last(self@.take(i as int), tag),
            decreases i,
        {
            i -= 1;
            assert(self@.take(i + 1).drop_last() =~= self@.take(i as int));
            assert(self@.take(i + 1).last() == (self.items@[i as int].0, self.items@[i as int].1@));
            if self.items[i].0 == tag {
                return Some(&self.items[i].1);
            }
        }
        None
    }

    pub fn text(&self, tag: u32) -> (r: String)
        ensures
            r@ == text(self@, tag),
    {
        match self.last(tag) {
            Some(Item::Text(s)) => s.clone(),
            _ => String::new(),
        }
    }

    pub fn flag(&self, tag: u32) -> (r: bool)
        ensures
            r == flag(self@, tag),
    {
        match self.last(tag) {
            Some(Item::Flag(v)) => *v,
            _ => false,
        }
    }

    pub fn uint(&self, tag: u32) -> (r: u32)
        ensures
            r == uint(self@, tag),
    {
        match self.last(tag) {
            Some(Item::Uint(v)) => *v,
            _ => 0,
        }
    }

    pub fn signed(&self, tag: u32) -> (r: i32)
        ensures
            r == signed(self@, tag),
    {
        match self.last(tag) {
            Some(Item::Int(v)) => *v,
            _ => 0,
        }
    }

    pub fn fixed(&self, tag: u32) -> (r: u32)
        ensures
            r == fixed(self@, tag),
    {
        match self.last(tag) {
            Some(Item::Fixed(v)) => *v,
            _ => 0,
        }
    }

    pub fn texts(&self, tag: u32) -> (r: Vec<String>)
        ensures
            chars(r@) == texts(self@, tag),
    {
        let mut out: Vec<String> = Vec::new();
        let mut i: usize = 0;
        assert(chars(out@) =~= texts(self@.take(0), tag));
        while i < self.items.len()
            invariant
                i <= self.items@.len(),
                chars(out@) == texts(self@.take(i as int), tag),
            decreases self.items.len() - i,
        {
            assert(self@.take(i + 1).drop_last() =~= self@.take(i as int));
            assert(self@.take(i + 1).last() == (self.items@[i as int].0, self.items@[i as int].1@));
            let ghost before = out@;
            if self.items[i].0 == tag {
                if let Item::Text(s) = &self.items[i].1 {
                    out.push(s.clone());
                    assert(chars(out@) =~= chars(before).push(s@));
                }
            }
            i += 1;
        }
        assert(self@.take(i as int) =~= self@);
        out
    }

    /// The contents of the messages of a field, in order.
    pub fn parts(&self, tag: u32) -> (r: Vec<Vec<u8>>)
        ensures
            r@.map_values(|v: Vec<u8>| v@) == parts(self@, tag),
    {
        let mut out: Vec<Vec<u8>> = Vec::new();
        let mut i: usize = 0;
        assert(out@.map_values(|v: Vec<u8>| v@) =~= parts(self@.take(0), tag));
        while i < self.items.len()
            invariant
                i <= self.items@.len(),
                out@.map_values(|v: Vec<u8>| v@) == parts(self@.take(i as int), tag),
            decreases self.items.len() - i,
        {
            assert(self@.take(i + 1).drop_last() =~= self@.take(i as int));
            assert(self@.take(i + 1).last() == (self.items@[i as int].0, self.items@[i as int].1@));
            let ghost before = out@;
            if self.items[i].0 == tag {
                if let Item::Part(s) = &self.items[i].1 {
                    let mut copy: Vec<u8> = Vec::new();
                    copy.extend_from_slice(s.as_slice());
                    assert(copy@ =~= s@);
                    out.push(copy);
                    assert(out@.map_values(|v: Vec<u8>| v@) =~= before.map_values(
                        |v: Vec<u8>| v@,
                    ).push(s@));
                }
            }
            i += 1;
        }
        assert(self@.take(i as int) =~= self@);
        out
    }
}

// ----- inner messages ------------------------------------------------------------------------------

proof fn lemma_kind_of_is_a_slot(slots: Seq<Slot>, tag: u32)
    ensures
        kind_of(slots, tag) matches Some(kind) ==> exists|j: int|
            0 <= j < slots.len() && #[trigger] slots[j] == (Slot { tag, kind }),
    decreases slots.len(),
{
    if slots.len() > 0 {
        if slots[0].tag == tag {
            assert(slots[0] == (Slot { tag, kind: slots[0].kind }));
        } else {
            lemma_kind_of_is_a_slot(slots.skip(1), tag);
            if let Some(kind) = kind_of(slots, tag) {
                let j = choose|j: int|
                    0 <= j < slots.skip(1).len() && #[trigger] slots.skip(1)[j] == (Slot {
                        tag,
                        kind,
                    });
                assert(slots[j + 1] == slots.skip(1)[j]);
            }
        }
    }
}

/// A message is found only where a field holds messages.
proof fn lemma_item_kinds(slots: Seq<Slot>, b: Seq<u8>, inner: bool)
    ensures
        found(slots, b, inner) matches Some(items) ==> forall|i: int|
            0 <= i < items.len() && #[trigger] items[i].1 is Part ==> kind_of(slots, items[i].0)
                == Some(Kind::Parts),
    decreases b.len(),
{
    if b.len() > 0 {
        if let Some((tag, w, n)) = wire::key_of(b) {
            let rest = b.skip(n as int);
            lemma_in_bounds(Kind::Text, w, tag, b);
            match kind_of(slots, tag) {
                Some(kind) => {
                    if let Some((item, m)) = wire::item_of(kind, w, rest) {
                        lemma_in_bounds(kind, w, tag, rest);
                        lemma_item_kinds(slots, rest.skip(m as int), inner);
                        if let Some(more) = found(slots, rest.skip(m as int), inner) {
                            let items = seq![(tag, item)] + more;
                            assert forall|i: int|
                                0 <= i < items.len() && #[trigger] items[i].1 is Part implies kind_of(
                                slots,
                                items[i].0,
                            ) == Some(Kind::Parts) by {
                                if i > 0 {
                                    assert(items[i] == more[i - 1]);
                                }
                            }
                        }
                    }
                },
                None => {
                    if let Some(m) = unknown(w, tag, rest, inner) {
                        lemma_in_bounds(Kind::Text, w, tag, rest);
                        lemma_item_kinds(slots, rest.skip(m as int), inner);
                    }
                },
            }
        }
    }
}

proof fn lemma_parts_are_items(items: Seq<(u32, Found)>, tag: u32)
    ensures
        forall|i: int|
            0 <= i < items.len() && #[trigger] items[i].0 == tag && items[i].1 is Part ==> parts(
                items,
                tag,
            ).contains(items[i].1->Part_0),
        forall|b: Seq<u8>| #[trigger]
            parts(items, tag).contains(b) ==> items.contains((tag, Found::Part(b))),
    decreases items.len(),
{
    if items.len() > 0 {
        let rest = items.drop_last();
        let before = parts(rest, tag);
        let all = parts(items, tag);
        lemma_parts_are_items(rest, tag);
        let last = items.last();
        assert(items[items.len() - 1] == last);
        assert forall|b: Seq<u8>| #[trigger] before.contains(b) implies all.contains(b) by {
            let k = choose|k: int| 0 <= k < before.len() && before[k] == b;
            assert(all[k] == b);
        }
        if last.0 == tag && last.1 is Part {
            assert(all[before.len() as int] == last.1->Part_0);
        }
        assert forall|i: int|
            0 <= i < items.len() && #[trigger] items[i].0 == tag
                && items[i].1 is Part implies all.contains(items[i].1->Part_0) by {
            if i < rest.len() {
                assert(rest[i] == items[i]);
                assert(before.contains(items[i].1->Part_0));
            }
        }
        assert forall|b: Seq<u8>| #[trigger] all.contains(b) implies items.contains(
            (tag, Found::Part(b)),
        ) by {
            let k = choose|k: int| 0 <= k < all.len() && all[k] == b;
            if k < before.len() {
                assert(before[k] == b);
                assert(before.contains(b));
                let i = choose|i: int| 0 <= i < rest.len() && rest[i] == (tag, Found::Part(b));
                assert(items[i] == (tag, Found::Part(b)));
            } else {
                assert(items[items.len() - 1] == (tag, Found::Part(b)));
            }
        }
    }
}

/// A message none of whose fields holds messages has no inner messages.
pub proof fn lemma_no_parts(slots: Seq<Slot>, part: Seq<Slot>, b: Seq<u8>)
    requires
        forall|j: int| 0 <= j < slots.len() ==> #[trigger] slots[j].kind != Kind::Parts,
    ensures
        found(slots, b, false) matches Some(items) ==> parts_readable(part, items),
{
    lemma_item_kinds(slots, b, false);
    if let Some(items) = found(slots, b, false) {
        assert forall|i: int| 0 <= i < items.len() implies (#[trigger] items[i].1 matches Found::Part(
            c,
        ) ==> flat_read(part, c) is Some) by {
            if items[i].1 is Part {
                lemma_kind_of_is_a_slot(slots, items[i].0);
                let slot = Slot { tag: items[i].0, kind: Kind::Parts };
                let j = choose|j: int| 0 <= j < slots.len() && #[trigger] slots[j] == slot;
                assert(slots[j].kind == Kind::Parts);
            }
        }
    }
}

/// Where one field holds messages, they are the inner messages.
pub proof fn lemma_only_parts(slots: Seq<Slot>, part: Seq<Slot>, tag: u32, b: Seq<u8>)
    requires
        forall|j: int|
            0 <= j < slots.len() ==> (#[trigger] slots[j].kind == Kind::Parts ==> slots[j].tag
                == tag),
    ensures
        found(slots, b, false) matches Some(items) ==> (parts_readable(part, items) <==> forall|k: int|
            0 <= k < parts(items, tag).len() ==> flat_read(
                part,
                #[trigger] parts(items, tag)[k],
            ) is Some),
{
    lemma_item_kinds(slots, b, false);
    if let Some(items) = found(slots, b, false) {
        lemma_parts_are_items(items, tag);
        let inner = parts(items, tag);
        if parts_readable(part, items) {
            assert forall|k: int| 0 <= k < inner.len() implies flat_read(
                part,
                #[trigger] inner[k],
            ) is Some by {
                assert(inner.contains(inner[k]));
                let i = choose|i: int|
                    0 <= i < items.len() && items[i] == (tag, Found::Part(inner[k]));
                assert(items[i].1 == Found::Part(inner[k]));
            }
        }
        if forall|k: int|
            0 <= k < inner.len() ==> flat_read(part, #[trigger] inner[k]) is Some {
            assert forall|i: int| 0 <= i < items.len() implies (
            #[trigger] items[i].1 matches Found::Part(c) ==> flat_read(part, c) is Some) by {
                if let Found::Part(c) = items[i].1 {
                    lemma_kind_of_is_a_slot(slots, items[i].0);
                    let slot = Slot { tag: items[i].0, kind: Kind::Parts };
                    let j = choose|j: int| 0 <= j < slots.len() && #[trigger] slots[j] == slot;
                    assert(slots[j].kind == Kind::Parts);
                    assert(inner.contains(c));
                    let k = choose|k: int| 0 <= k < inner.len() && inner[k] == c;
                    assert(flat_read(part, inner[k]) is Some);
                }
            }
        }
    }
}

} // verus!
