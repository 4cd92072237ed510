//! Reading a message gives back what was written.

use vstd::prelude::*;
use vstd::utf8::*;

use crate::api::message;
use crate::api::message::{ApiMessage, Slot, Value};
use crate::api::varint;
use crate::api::wire;
use crate::api::wire::{Found, Kind};

verus! {

/// A value that is given back: not too long, and not the negative zero, which is left out like
/// the positive one and read back as that.
pub open spec fn storable_flat(v: Value) -> bool {
    match v {
        Value::Text(s) => encode_utf8(s).len() <= u64::MAX,
        Value::Float(n) => n != 0x8000_0000,
        _ => true,
    }
}

/// Every value of an inner message is given back, and it is not too long.
pub open spec fn storable_part(part: Seq<Slot>, values: Seq<Value>) -> bool {
    &&& forall|i: int| 0 <= i < values.len() ==> storable_flat(#[trigger] values[i])
    &&& message::flat_fields(part, values, part.len()).len() <= u64::MAX
}

pub open spec fn storable(part: Seq<Slot>, v: Value) -> bool {
    match v {
        Value::Texts(texts) => forall|i: int|
            0 <= i < texts.len() ==> encode_utf8(#[trigger] texts[i]).len() <= u64::MAX,
        Value::Parts(parts) => forall|i: int|
            0 <= i < parts.len() ==> storable_part(part, #[trigger] parts[i]),
        _ => storable_flat(v),
    }
}

spec fn holds_flat(slot: Slot, v: Value) -> bool {
    message::fits_flat(slot, v) && storable_flat(v)
}

spec fn flat(slots: Seq<Slot>, values: Seq<Value>) -> bool {
    &&& values.len() == slots.len()
    &&& forall|i: int| 0 <= i < slots.len() ==> #[trigger] holds_flat(slots[i], values[i])
}

spec fn holds(slot: Slot, part: Seq<Slot>, v: Value) -> bool {
    message::fits(slot, part, v) && storable(part, v)
}

proof fn lemma_part_is_flat(part: Seq<Slot>, values: Seq<Value>)
    requires
        message::all_fit_flat(part, values),
        storable_part(part, values),
    ensures
        flat(part, values),
{
    assert forall|i: int| 0 <= i < part.len() implies #[trigger] holds_flat(
        part[i],
        values[i],
    ) by {
        assert(message::fits_flat(part[i], values[i]));
        assert(storable_flat(values[i]));
    }
}

// ----- varints and keys ----------------------------------------------------------------------------

proof fn lemma_top_byte(v: nat, n: nat)
    requires
        n >= 1,
        v < 2 * varint::scale((n - 1) as nat),
    ensures
        varint::bytes_of(v).len() <= n,
        varint::bytes_of(v).len() == n ==> varint::bytes_of(v)[n - 1] < 2,
    decreases n,
{
    if n > 1 {
        assert(varint::scale((n - 1) as nat) == 128 * varint::scale((n - 2) as nat));
        if v >= 128 {
            lemma_top_byte(v / 128, (n - 1) as nat);
        }
    }
}

proof fn lemma_varint64(v: nat, rest: Seq<u8>)
    requires
        v <= u64::MAX,
    ensures
        wire::varint64(varint::bytes_of(v) + rest) == Some((v, varint::bytes_of(v).len())),
        varint::bytes_of(v).len() >= 1,
{
    let b = varint::bytes_of(v) + rest;
    varint::lemma_bytes_of(v, rest);
    assert(varint::scale(9) == 0x8000_0000_0000_0000) by {
        reveal_with_fuel(varint::scale, 10);
    }
    lemma_top_byte(v, 10);
}

proof fn lemma_key(tag: u32, w: u8, rest: Seq<u8>)
    requires
        1 <= tag <= wire::MAX_TAG,
        w <= 5,
    ensures
        wire::key_of(wire::key(tag, w) + rest) == Some((tag, w, wire::key(tag, w).len())),
        wire::key(tag, w).len() >= 1,
        (wire::key(tag, w) + rest).skip(wire::key(tag, w).len() as int) == rest,
{
    let v = (tag * 8 + w) as nat;
    lemma_varint64(v, rest);
    assert(v % 8 == w && v / 8 == tag);
    assert((wire::key(tag, w) + rest).skip(wire::key(tag, w).len() as int) =~= rest);
}

proof fn lemma_chunk(content: Seq<u8>, rest: Seq<u8>)
    requires
        content.len() <= u64::MAX,
    ensures
        ({
            let b = varint::bytes_of(content.len()) + content + rest;
            let n = varint::bytes_of(content.len()).len() + content.len();
            &&& wire::chunk(b) == Some((content, n))
            &&& b.skip(n as int) == rest
            &&& n <= b.len()
        }),
{
    let head = varint::bytes_of(content.len());
    let b = head + content + rest;
    assert(b =~= head + (content + rest));
    lemma_varint64(content.len(), content + rest);
    let n = head.len();
    assert(b.subrange(n as int, (n + content.len()) as int) =~= content);
    assert(b.skip((n + content.len()) as int) =~= rest);
}

// ----- one field -------------------------------------------------------------------------------------

/// The occurrences that are written for a value.
spec fn items_of(slot: Slot, part: Seq<Slot>, v: Value) -> Seq<(u32, Found)> {
    match v {
        Value::Text(s) => if s.len() == 0 {
            seq![]
        } else {
            seq![(slot.tag, Found::Text(s))]
        },
        Value::Flag(b) => if !b {
            seq![]
        } else {
            seq![(slot.tag, Found::Flag(true))]
        },
        Value::Uint(n) => if n == 0 {
            seq![]
        } else {
            seq![(slot.tag, Found::Uint(n))]
        },
        Value::Int(n) => if n == 0 {
            seq![]
        } else {
            seq![(slot.tag, Found::Int(n))]
        },
        Value::Fixed(n) => if n == 0 {
            seq![]
        } else {
            seq![(slot.tag, Found::Fixed(n))]
        },
        Value::Float(n) => if message::is_zero(n) {
            seq![]
        } else {
            seq![(slot.tag, Found::Fixed(n))]
        },
        Value::Texts(texts) => texts.map_values(|s: Seq<char>| (slot.tag, Found::Text(s))),
        Value::Parts(parts) => parts.map_values(
            |p: Seq<Value>|
                (slot.tag, Found::Part(message::flat_fields(part, p, part.len()))),
        ),
    }
}

/// What is found in `written` and then `rest`: the given items, and then what is in `rest`.
#[verifier::opaque]
spec fn leads_with(
    inner: bool,
    slots: Seq<Slot>,
    written: Seq<u8>,
    items: Seq<(u32, Found)>,
    rest: Seq<u8>,
) -> bool {
    message::found(slots, written + rest, inner) == match message::found(slots, rest, inner) {
        Some(more) => Some(items + more),
        None => None,
    }
}

proof fn lemma_nothing(inner: bool, slots: Seq<Slot>, rest: Seq<u8>)
    ensures
        leads_with(inner, slots, seq![], seq![], rest),
{
    reveal(leads_with);
    assert(Seq::<u8>::empty() + rest =~= rest);
    if message::found(slots, rest, inner) is Some {
        let more = message::found(slots, rest, inner)->0;
        assert(Seq::<(u32, Found)>::empty() + more =~= more);
    }
}

/// One thing written behind another.
proof fn lemma_then(
    inner: bool,
    slots: Seq<Slot>,
    before: Seq<u8>,
    items: Seq<(u32, Found)>,
    one: Seq<u8>,
    found: Seq<(u32, Found)>,
    rest: Seq<u8>,
)
    requires
        leads_with(inner, slots, before, items, one + rest),
        leads_with(inner, slots, one, found, rest),
    ensures
        leads_with(inner, slots, before + one, items + found, rest),
{
    reveal(leads_with);
    assert(before + one + rest =~= before + (one + rest));
    if message::found(slots, rest, inner) is Some {
        let more = message::found(slots, rest, inner)->0;
        assert(items + (found + more) =~= items + found + more);
    }
}

/// A field: its key, and what stands behind it.
proof fn lemma_one(
    inner: bool,
    slots: Seq<Slot>,
    slot: Slot,
    w: u8,
    body: Seq<u8>,
    item: Found,
    rest: Seq<u8>,
)
    requires
        1 <= slot.tag <= wire::MAX_TAG,
        w <= 5,
        message::kind_of(slots, slot.tag) == Some(slot.kind),
        wire::item_of(slot.kind, w, body + rest) == Some((item, body.len())),
    ensures
        leads_with(inner, slots, wire::key(slot.tag, w) + body, seq![(slot.tag, item)], rest),
{
    reveal(leads_with);
    let b = wire::key(slot.tag, w) + body + rest;
    assert(b =~= wire::key(slot.tag, w) + (body + rest));
    lemma_key(slot.tag, w, body + rest);
    assert((body + rest).skip(body.len() as int) =~= rest);
}

proof fn lemma_delimited(
    inner: bool,
    slots: Seq<Slot>,
    slot: Slot,
    content: Seq<u8>,
    item: Found,
    rest: Seq<u8>,
)
    requires
        1 <= slot.tag <= wire::MAX_TAG,
        message::kind_of(slots, slot.tag) == Some(slot.kind),
        content.len() <= u64::MAX,
        slot.kind == Kind::Parts && item == Found::Part(content) || (slot.kind == Kind::Text
            || slot.kind == Kind::Texts) && valid_utf8(content) && item == Found::Text(
            decode_utf8(content),
        ),
    ensures
        leads_with(inner, slots, wire::delimited(slot.tag, content), seq![(slot.tag, item)], rest),
{
    let body = varint::bytes_of(content.len()) + content;
    lemma_chunk(content, rest);
    lemma_one(inner, slots, slot, 2, body, item, rest);
    assert(wire::delimited(slot.tag, content) =~= wire::key(slot.tag, 2) + body);
}

proof fn lemma_le(v: u32, rest: Seq<u8>)
    ensures
        wire::from_le(wire::le(v) + rest) == v,
        wire::le(v).len() == 4,
{
    let b = wire::le(v) + rest;
    assert(b[0] == v % 256 && b[1] == v / 256 % 256 && b[2] == v / 65536 % 256 && b[3] == v
        / 16777216 % 256);
}

proof fn lemma_texts(
    inner: bool,
    slots: Seq<Slot>,
    slot: Slot,
    texts: Seq<Seq<char>>,
    n: nat,
    rest: Seq<u8>,
)
    requires
        1 <= slot.tag <= wire::MAX_TAG,
        message::kind_of(slots, slot.tag) == Some(slot.kind),
        slot.kind == Kind::Texts,
        n <= texts.len(),
        forall|i: int|
            0 <= i < texts.len() ==> encode_utf8(#[trigger] texts[i]).len() <= u64::MAX,
    ensures
        leads_with(
            inner,
            slots,
            message::text_fields(slot.tag, texts, n),
            texts.take(n as int).map_values(|s: Seq<char>| (slot.tag, Found::Text(s))),
            rest,
        ),
    decreases n,
{
    let f = |s: Seq<char>| (slot.tag, Found::Text(s));
    if n == 0 {
        lemma_nothing(inner, slots, rest);
        assert(texts.take(0).map_values(f) =~= seq![]);
    } else {
        let s = texts[n - 1];
        let one = wire::delimited(slot.tag, encode_utf8(s));
        encode_utf8_valid_utf8(s);
        encode_utf8_decode_utf8(s);
        lemma_delimited(inner, slots, slot, encode_utf8(s), Found::Text(s), rest);
        lemma_texts(inner, slots, slot, texts, (n - 1) as nat, one + rest);
        let before = message::text_fields(slot.tag, texts, (n - 1) as nat);
        let items = texts.take(n - 1).map_values(f);
        lemma_then(inner, slots, before, items, one, seq![f(s)], rest);
        assert(texts.take(n as int).map_values(f) =~= items + seq![f(s)]);
    }
}

proof fn lemma_parts(
    inner: bool,
    slots: Seq<Slot>,
    slot: Slot,
    part: Seq<Slot>,
    parts: Seq<Seq<Value>>,
    n: nat,
    rest: Seq<u8>,
)
    requires
        1 <= slot.tag <= wire::MAX_TAG,
        message::kind_of(slots, slot.tag) == Some(slot.kind),
        slot.kind == Kind::Parts,
        n <= parts.len(),
        forall|i: int|
            0 <= i < parts.len() ==> message::flat_fields(
                part,
                #[trigger] parts[i],
                part.len(),
            ).len() <= u64::MAX,
    ensures
        leads_with(
            inner,
            slots,
            message::part_fields(slot.tag, part, parts, n),
            parts.take(n as int).map_values(
                |p: Seq<Value>|
                    (slot.tag, Found::Part(message::flat_fields(part, p, part.len()))),
            ),
            rest,
        ),
    decreases n,
{
    let f = |p: Seq<Value>| (slot.tag, Found::Part(message::flat_fields(part, p, part.len())));
    if n == 0 {
        lemma_nothing(inner, slots, rest);
        assert(parts.take(0).map_values(f) =~= seq![]);
    } else {
        let p = parts[n - 1];
        let content = message::flat_fields(part, p, part.len());
        let one = wire::delimited(slot.tag, content);
        lemma_delimited(inner, slots, slot, content, Found::Part(content), rest);
        lemma_parts(inner, slots, slot, part, parts, (n - 1) as nat, one + rest);
        let before = message::part_fields(slot.tag, part, parts, (n - 1) as nat);
        let items = parts.take(n - 1).map_values(f);
        lemma_then(inner, slots, before, items, one, seq![f(p)], rest);
        assert(parts.take(n as int).map_values(f) =~= items + seq![f(p)]);
    }
}

proof fn lemma_flat_field(inner: bool, slots: Seq<Slot>, slot: Slot, v: Value, rest: Seq<u8>)
    requires
        1 <= slot.tag <= wire::MAX_TAG,
        message::kind_of(slots, slot.tag) == Some(slot.kind),
        holds_flat(slot, v),
    ensures
        leads_with(inner, slots, message::flat_field(slot, v), items_of(slot, seq![], v), rest),
{
    match v {
        Value::Text(s) => {
            if s.len() == 0 {
                lemma_nothing(inner, slots, rest);
            } else {
                encode_utf8_valid_utf8(s);
                encode_utf8_decode_utf8(s);
                lemma_delimited(inner, slots, slot, encode_utf8(s), Found::Text(s), rest);
            }
        },
        Value::Flag(b) => {
            if !b {
                lemma_nothing(inner, slots, rest);
            } else {
                lemma_varint64(1, rest);
                lemma_one(inner, slots, slot, 0, varint::bytes_of(1), Found::Flag(true), rest);
            }
        },
        Value::Uint(n) => {
            if n == 0 {
                lemma_nothing(inner, slots, rest);
            } else {
                lemma_varint64(n as nat, rest);
                lemma_one(inner, slots, slot, 0, varint::bytes_of(n as nat), Found::Uint(n), rest);
            }
        },
        Value::Int(n) => {
            if n == 0 {
                lemma_nothing(inner, slots, rest);
            } else {
                lemma_varint64(wire::signed(n), rest);
                assert(wire::from_signed(wire::signed(n)) == n);
                lemma_one(inner, slots, slot, 0, varint::bytes_of(wire::signed(n)), Found::Int(n), rest);
            }
        },
        Value::Fixed(n) => {
            if n == 0 {
                lemma_nothing(inner, slots, rest);
            } else {
                lemma_le(n, rest);
                lemma_one(inner, slots, slot, 5, wire::le(n), Found::Fixed(n), rest);
            }
        },
        Value::Float(n) => {
            if n == 0 {
                lemma_nothing(inner, slots, rest);
            } else {
                lemma_le(n, rest);
                lemma_one(inner, slots, slot, 5, wire::le(n), Found::Fixed(n), rest);
            }
        },
        _ => {},
    }
}

proof fn lemma_field(
    inner: bool,
    slots: Seq<Slot>,
    slot: Slot,
    part: Seq<Slot>,
    v: Value,
    rest: Seq<u8>,
)
    requires
        1 <= slot.tag <= wire::MAX_TAG,
        message::kind_of(slots, slot.tag) == Some(slot.kind),
        holds(slot, part, v),
    ensures
        leads_with(inner, slots, message::field(slot, part, v), items_of(slot, part, v), rest),
{
    match v {
        Value::Texts(texts) => {
            lemma_texts(inner, slots, slot, texts, texts.len(), rest);
            assert(texts.take(texts.len() as int) =~= texts);
        },
        Value::Parts(parts) => {
            assert forall|i: int| 0 <= i < parts.len() implies message::flat_fields(
                part,
                #[trigger] parts[i],
                part.len(),
            ).len() <= u64::MAX by {
                assert(storable_part(part, parts[i]));
            }
            lemma_parts(inner, slots, slot, part, parts, parts.len(), rest);
            assert(parts.take(parts.len() as int) =~= parts);
        },
        _ => {
            lemma_flat_field(inner, slots, slot, v, rest);
        },
    }
}

// ----- whole messages --------------------------------------------------------------------------------

/// The occurrences that are written for the first `n` values.
spec fn all_items(
    slots: Seq<Slot>,
    part: Seq<Slot>,
    values: Seq<Value>,
    n: nat,
) -> Seq<(u32, Found)>
    decreases n,
{
    if n == 0 {
        seq![]
    } else {
        all_items(slots, part, values, (n - 1) as nat) + items_of(
            slots[n - 1],
            part,
            values[n - 1],
        )
    }
}

proof fn lemma_kind_of(slots: Seq<Slot>, i: int)
    requires
        0 <= i < slots.len(),
        message::distinct(slots),
    ensures
        message::kind_of(slots, slots[i].tag) == Some(slots[i].kind),
    decreases slots.len(),
{
    if i > 0 {
        let tail = slots.skip(1);
        assert forall|j: int| 0 <= j < tail.len() implies 1 <= #[trigger] tail[j].tag
            <= wire::MAX_TAG by {
            assert(tail[j] == slots[j + 1]);
        }
        assert forall|j: int, k: int| 0 <= j < k < tail.len() implies #[trigger] tail[j].tag
            != #[trigger] tail[k].tag by {
            assert(tail[j] == slots[j + 1]);
            assert(tail[k] == slots[k + 1]);
        }
        lemma_kind_of(tail, i - 1);
        assert(tail[i - 1] == slots[i]);
        assert(slots[0].tag != slots[i].tag);
    }
}

proof fn lemma_fields(
    inner: bool,
    slots: Seq<Slot>,
    part: Seq<Slot>,
    values: Seq<Value>,
    n: nat,
    rest: Seq<u8>,
)
    requires
        message::distinct(slots),
        n <= slots.len() == values.len(),
        forall|i: int| 0 <= i < slots.len() ==> #[trigger] holds(slots[i], part, values[i]),
    ensures
        leads_with(
            inner,
            slots,
            message::fields(slots, part, values, n),
            all_items(slots, part, values, n),
            rest,
        ),
    decreases n,
{
    if n == 0 {
        lemma_nothing(inner, slots, rest);
    } else {
        let m = (n - 1) as nat;
        let one = message::field(slots[n - 1], part, values[n - 1]);
        lemma_kind_of(slots, n - 1);
        assert(holds(slots[n - 1], part, values[n - 1]));
        lemma_field(inner, slots, slots[n - 1], part, values[n - 1], rest);
        lemma_fields(inner, slots, part, values, m, one + rest);
        let before = message::fields(slots, part, values, m);
        let items = items_of(slots[n - 1], part, values[n - 1]);
        lemma_then(inner, slots, before, all_items(slots, part, values, m), one, items, rest);
    }
}

proof fn lemma_last_concat(s: Seq<(u32, Found)>, t: Seq<(u32, Found)>, tag: u32)
    ensures
        message::last(s + t, tag) == match message::last(t, tag) {
            Some(x) => Some(x),
            None => message::last(s, tag),
        },
        message::texts(s + t, tag) == message::texts(s, tag) + message::texts(t, tag),
        message::parts(s + t, tag) == message::parts(s, tag) + message::parts(t, tag),
    decreases t.len(),
{
    if t.len() == 0 {
        assert(s + t =~= s);
        assert(message::texts(s, tag) + message::texts(t, tag) =~= message::texts(s, tag));
        assert(message::parts(s, tag) + message::parts(t, tag) =~= message::parts(s, tag));
    } else {
        assert((s + t).drop_last() =~= s + t.drop_last());
        lemma_last_concat(s, t.drop_last(), tag);
        assert(message::texts(s + t, tag) =~= message::texts(s, tag) + message::texts(t, tag));
        assert(message::parts(s + t, tag) =~= message::parts(s, tag) + message::parts(t, tag));
    }
}

/// None of the items belongs to the field.
proof fn lemma_last_absent(s: Seq<(u32, Found)>, tag: u32)
    requires
        forall|i: int| 0 <= i < s.len() ==> #[trigger] s[i].0 != tag,
    ensures
        message::last(s, tag) is None,
        message::texts(s, tag) == Seq::<Seq<char>>::empty(),
        message::parts(s, tag) == Seq::<Seq<u8>>::empty(),
    decreases s.len(),
{
    if s.len() > 0 {
        let t = s.drop_last();
        assert forall|i: int| 0 <= i < t.len() implies #[trigger] t[i].0 != tag by {
            assert(t[i] == s[i]);
        }
        assert(s[s.len() - 1].0 != tag);
        lemma_last_absent(t, tag);
    }
}

proof fn lemma_items_tag(slot: Slot, part: Seq<Slot>, v: Value)
    ensures
        forall|i: int|
            0 <= i < items_of(slot, part, v).len() ==> #[trigger] items_of(slot, part, v)[i].0
                == slot.tag,
{
}

/// What is written for one field is what is found for its number.
proof fn lemma_own_items(
    slots: Seq<Slot>,
    part: Seq<Slot>,
    values: Seq<Value>,
    n: nat,
    i: int,
)
    requires
        message::distinct(slots),
        n <= slots.len() == values.len(),
        0 <= i < slots.len(),
    ensures
        ({
            let all = all_items(slots, part, values, n);
            let own = if i < n {
                items_of(slots[i], part, values[i])
            } else {
                seq![]
            };
            &&& message::last(all, slots[i].tag) == message::last(own, slots[i].tag)
            &&& message::texts(all, slots[i].tag) == message::texts(own, slots[i].tag)
            &&& message::parts(all, slots[i].tag) == message::parts(own, slots[i].tag)
        }),
    decreases n,
{
    let tag = slots[i].tag;
    if n > 0 {
        let m = (n - 1) as nat;
        lemma_own_items(slots, part, values, m, i);
        let s = all_items(slots, part, values, m);
        let t = items_of(slots[n - 1], part, values[n - 1]);
        lemma_last_concat(s, t, tag);
        lemma_items_tag(slots[n - 1], part, values[n - 1]);
        if i == n - 1 {
            assert(message::texts(s, tag) + message::texts(t, tag) =~= message::texts(t, tag));
            assert(message::parts(s, tag) + message::parts(t, tag) =~= message::parts(t, tag));
        } else {
            assert(slots[i].tag != slots[n - 1].tag);
            lemma_last_absent(t, tag);
            assert(message::texts(s, tag) + message::texts(t, tag) =~= message::texts(s, tag));
            assert(message::parts(s, tag) + message::parts(t, tag) =~= message::parts(s, tag));
        }
    }
}

proof fn lemma_mapped_texts(tag: u32, texts: Seq<Seq<char>>)
    ensures
        message::texts(texts.map_values(|s: Seq<char>| (tag, Found::Text(s))), tag) == texts,
    decreases texts.len(),
{
    let f = |s: Seq<char>| (tag, Found::Text(s));
    let all = texts.map_values(f);
    if texts.len() > 0 {
        lemma_mapped_texts(tag, texts.drop_last());
        assert(all.drop_last() =~= texts.drop_last().map_values(f));
    }
    assert(message::texts(all, tag) =~= texts);
}

proof fn lemma_mapped_parts(tag: u32, part: Seq<Slot>, parts: Seq<Seq<Value>>)
    ensures
        message::parts(
            parts.map_values(
                |p: Seq<Value>| (tag, Found::Part(message::flat_fields(part, p, part.len()))),
            ),
            tag,
        ) == parts.map_values(|p: Seq<Value>| message::flat_fields(part, p, part.len())),
    decreases parts.len(),
{
    let f = |p: Seq<Value>| (tag, Found::Part(message::flat_fields(part, p, part.len())));
    let g = |p: Seq<Value>| message::flat_fields(part, p, part.len());
    let all = parts.map_values(f);
    if parts.len() > 0 {
        lemma_mapped_parts(tag, part, parts.drop_last());
        assert(all.drop_last() =~= parts.drop_last().map_values(f));
    }
    assert(message::parts(all, tag) =~= parts.map_values(g));
}

proof fn lemma_flat_value(slot: Slot, v: Value, all: Seq<(u32, Found)>)
    requires
        holds_flat(slot, v),
        message::last(all, slot.tag) == message::last(items_of(slot, seq![], v), slot.tag),
    ensures
        message::flat_value(slot, all) == v,
{
    let own = items_of(slot, seq![], v);
    if own.len() > 0 {
        assert(own.last() == own[0]);
    }
    if let Value::Text(s) = v {
        if s.len() == 0 {
            assert(s =~= Seq::<char>::empty());
        }
    }
}

proof fn lemma_flat_fields(slots: Seq<Slot>, values: Seq<Value>, n: nat)
    requires
        flat(slots, values),
        n <= slots.len(),
    ensures
        message::flat_fields(slots, values, n) == message::fields(slots, seq![], values, n),
    decreases n,
{
    if n > 0 {
        lemma_flat_fields(slots, values, (n - 1) as nat);
        assert(holds_flat(slots[n - 1], values[n - 1]));
    }
}

proof fn lemma_flat_read(slots: Seq<Slot>, values: Seq<Value>)
    requires
        message::distinct(slots),
        flat(slots, values),
    ensures
        message::flat_read(slots, message::flat_fields(slots, values, slots.len())) == Some(values),
{
    let n = slots.len();
    lemma_flat_fields(slots, values, n);
    assert forall|i: int| 0 <= i < n implies #[trigger] holds(slots[i], seq![], values[i]) by {
        assert(holds_flat(slots[i], values[i]));
    }
    reveal(leads_with);
    lemma_fields(true, slots, seq![], values, n, seq![]);
    let all = all_items(slots, seq![], values, n);
    let b = message::fields(slots, seq![], values, n);
    assert(b + Seq::<u8>::empty() =~= b);
    assert(all + Seq::<(u32, Found)>::empty() =~= all);
    assert forall|i: int| 0 <= i < n implies #[trigger] message::flat_value(slots[i], all)
        == values[i] by {
        assert(holds_flat(slots[i], values[i]));
        lemma_own_items(slots, seq![], values, n, i);
        lemma_flat_value(slots[i], values[i], all);
    }
    assert(Seq::new(n, |i: int| message::flat_value(slots[i], all)) =~= values);
}

proof fn lemma_parts_readable(
    slots: Seq<Slot>,
    part: Seq<Slot>,
    values: Seq<Value>,
    n: nat,
)
    requires
        message::distinct(part),
        n <= slots.len() == values.len(),
        forall|i: int| 0 <= i < slots.len() ==> #[trigger] holds(slots[i], part, values[i]),
    ensures
        message::parts_readable(part, all_items(slots, part, values, n)),
    decreases n,
{
    if n > 0 {
        lemma_parts_readable(slots, part, values, (n - 1) as nat);
        let s = all_items(slots, part, values, (n - 1) as nat);
        let v = values[n - 1];
        let t = items_of(slots[n - 1], part, v);
        let all = s + t;
        assert(holds(slots[n - 1], part, v));
        assert forall|i: int| 0 <= i < all.len() implies (#[trigger] all[i].1 matches Found::Part(
            b,
        ) ==> message::flat_read(part, b) is Some) by {
            if i < s.len() {
                assert(all[i] == s[i]);
            } else {
                assert(all[i] == t[i - s.len()]);
                if let Value::Parts(ps) = v {
                    let p = ps[i - s.len()];
                    assert(message::all_fit_flat(part, p) && storable_part(part, p));
                    lemma_part_is_flat(part, p);
                    lemma_flat_read(part, p);
                }
            }
        }
    }
}

proof fn lemma_messages_round_trip(slots: Seq<Slot>, part: Seq<Slot>, values: Seq<Value>)
    requires
        message::distinct(slots),
        message::distinct(part),
        slots.len() == values.len(),
        forall|i: int| 0 <= i < slots.len() ==> #[trigger] holds(slots[i], part, values[i]),
    ensures
        message::read(slots, part, message::written(slots, part, values)) == Some(values),
{
    let n = slots.len();
    reveal(leads_with);
    lemma_fields(false, slots, part, values, n, seq![]);
    lemma_parts_readable(slots, part, values, n);
    let all = all_items(slots, part, values, n);
    let b = message::written(slots, part, values);
    assert(b + Seq::<u8>::empty() =~= b);
    assert(all + Seq::<(u32, Found)>::empty() =~= all);
    assert forall|i: int| 0 <= i < n implies #[trigger] message::value(slots[i], part, all)
        == values[i] by {
        let slot = slots[i];
        let v = values[i];
        assert(holds(slot, part, v));
        lemma_own_items(slots, part, values, n, i);
        match v {
            Value::Texts(texts) => {
                lemma_mapped_texts(slot.tag, texts);
            },
            Value::Parts(ps) => {
                lemma_mapped_parts(slot.tag, part, ps);
                let bytes = message::parts(all, slot.tag);
                assert forall|k: int| 0 <= k < ps.len() implies message::flat_read(
                    part,
                    #[trigger] bytes[k],
                ) == Some(ps[k]) by {
                    assert(message::all_fit_flat(part, ps[k]) && storable_part(part, ps[k]));
                    lemma_part_is_flat(part, ps[k]);
                    lemma_flat_read(part, ps[k]);
                }
                assert(bytes.map_values(|b: Seq<u8>| message::flat_read(part, b)->0) =~= ps);
            },
            _ => {
                assert(items_of(slot, part, v) =~= items_of(slot, seq![], v));
                lemma_flat_value(slot, v, all);
            },
        }
    }
    assert(Seq::new(n, |i: int| message::value(slots[i], part, all)) =~= values);
}

/// Whatever values fit the fields of a message are read back from it.
pub proof fn lemma_written_values_are_read(slots: Seq<Slot>, part: Seq<Slot>, values: Seq<Value>)
    requires
        message::laid_out(slots, part, values),
        forall|i: int| 0 <= i < values.len() ==> storable(part, #[trigger] values[i]),
    ensures
        message::read(slots, part, message::written(slots, part, values)) == Some(values),
{
    assert forall|i: int| 0 <= i < slots.len() implies #[trigger] holds(
        slots[i],
        part,
        values[i],
    ) by {
        assert(message::fits(slots[i], part, values[i]));
        assert(storable(part, values[i]));
    }
    lemma_messages_round_trip(slots, part, values);
}

/// The negative zero is written like the positive one: not at all.
pub proof fn lemma_zeros_are_written_alike(
    slots: Seq<Slot>,
    part: Seq<Slot>,
    values: Seq<Value>,
    i: int,
    n: nat,
)
    requires
        0 <= i < values.len(),
        n <= values.len(),
        values[i] == Value::Float(0x8000_0000),
    ensures
        message::fields(slots, part, values, n) == message::fields(
            slots,
            part,
            values.update(i, Value::Float(0)),
            n,
        ),
    decreases n,
{
    if n > 0 {
        lemma_zeros_are_written_alike(slots, part, values, i, (n - 1) as nat);
    }
}

/// Decoding a message gives back what was encoded, field by field.
pub proof fn law_messages_round_trip<M: ApiMessage>(m: &M)
    requires
        forall|i: int|
            0 <= i < m.values().len() ==> storable(M::part(), #[trigger] m.values()[i]),
    ensures
        message::read(
            M::slots(),
            M::part(),
            message::written(M::slots(), M::part(), m.values()),
        ) == Some(m.values()),
{
    m.lemma_laid_out();
    let (slots, part, values) = (M::slots(), M::part(), m.values());
    assert forall|i: int| 0 <= i < slots.len() implies #[trigger] holds(
        slots[i],
        part,
        values[i],
    ) by {
        assert(message::fits(slots[i], part, values[i]));
        assert(storable(part, values[i]));
    }
    lemma_messages_round_trip(slots, part, values);
}

} // verus!
