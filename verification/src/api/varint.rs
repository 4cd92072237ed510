//! Protobuf-style unsigned LEB128 varints, used by the plaintext frame header.

use vstd::prelude::*;

use crate::api::error::{Error, Fault};

verus! {

/// A varint of the header has at most this many bytes.
pub const MAX_LEN: usize = 5;

/// The varint of `v`: seven bits per byte, the lowest first, the top bit set on all but the
/// last byte.
pub open spec fn bytes_of(v: nat) -> Seq<u8>
    decreases v,
{
    if v < 128 {
        seq![v as u8]
    } else {
        seq![(v % 128 + 128) as u8] + bytes_of(v / 128)
    }
}

/// 128 to the power of `n`.
pub open spec fn scale(n: nat) -> nat
    decreases n,
{
    if n == 0 {
        1
    } else {
        128 * scale((n - 1) as nat)
    }
}

/// What the low seven bits of the first `n` bytes stand for.
pub open spec fn groups(b: Seq<u8>, n: nat) -> nat
    decreases n,
{
    if n == 0 {
        0
    } else {
        groups(b, (n - 1) as nat) + (b[n - 1] % 128) as nat * scale((n - 1) as nat)
    }
}

/// Where the first varint of `b` ends: the first byte below 128 at or after `from`, or the end
/// of `b` if there is none.
pub open spec fn stop(b: Seq<u8>, from: nat) -> nat
    decreases b.len() - from,
{
    if from >= b.len() {
        b.len()
    } else if b[from as int] < 128 {
        from
    } else {
        stop(b, from + 1)
    }
}

/// The value of a varint that ends at `k`. Bits beyond the 32nd are dropped.
pub open spec fn value_at(b: Seq<u8>, k: nat) -> u32 {
    (groups(b, k + 1) % 0x1_0000_0000) as u32
}

/// What the start of a buffer holds.
pub enum Parsed {
    /// A varint of that value and length.
    Value(u32, nat),
    /// The beginning of a varint.
    Part,
    /// No varint of the header.
    TooLong,
}

pub open spec fn parsed(b: Seq<u8>) -> Parsed {
    let k = stop(b, 0);
    if k < b.len() && k < MAX_LEN {
        Parsed::Value(value_at(b, k), k + 1)
    } else if b.len() <= MAX_LEN {
        Parsed::Part
    } else {
        Parsed::TooLong
    }
}

proof fn lemma_stop_from(b: Seq<u8>, i: nat)
    requires
        i <= b.len(),
        forall|j: int| 0 <= j < i ==> #[trigger] b[j] >= 128,
    ensures
        stop(b, 0) == stop(b, i),
    decreases i,
{
    if i > 0 {
        assert(b[i - 1] >= 128);
        lemma_stop_from(b, (i - 1) as nat);
    }
}

pub proof fn lemma_stop_bounds(b: Seq<u8>, from: nat)
    requires
        from <= b.len(),
    ensures
        from <= stop(b, from) <= b.len(),
        stop(b, from) < b.len() ==> b[stop(b, from) as int] < 128,
        forall|j: int| from <= j < stop(b, from) ==> #[trigger] b[j] >= 128,
    decreases b.len() - from,
{
    if from < b.len() && b[from as int] >= 128 {
        lemma_stop_bounds(b, from + 1);
    }
}

pub fn encode(v: u32, out: &mut Vec<u8>)
    ensures
        final(out)@ == old(out)@ + bytes_of(v as nat),
{
    let ghost start = out@;
    let mut v: u32 = v;
    let ghost all = bytes_of(v as nat);
    let ghost mut done: Seq<u8> = Seq::empty();
    assert(out@ =~= start + done);
    assert(all =~= done + bytes_of(v as nat));
    while v >= 128
        invariant
            out@ == start + done,
            all == done + bytes_of(v as nat),
        decreases v,
    {
        let byte: u8 = (v % 128 + 128) as u8;
        out.push(byte);
        proof {
            assert(bytes_of(v as nat) == seq![byte] + bytes_of(v as nat / 128));
            assert(all =~= done.push(byte) + bytes_of(v as nat / 128));
            done = done.push(byte);
            assert(out@ =~= start + done);
        }
        v = v / 128;
    }
    out.push(v as u8);
    assert(out@ =~= start + (done + bytes_of(v as nat)));
}

/// What reading a varint from a stream that holds `b` gives.
pub enum Taken {
    /// A varint of that value and length.
    Value(u32, nat),
    /// The stream ends before the varint does.
    Closed,
    /// No varint of the header.
    TooLong,
}

pub open spec fn taken(b: Seq<u8>) -> Taken {
    let k = stop(b, 0);
    if k < b.len() && k < MAX_LEN {
        Taken::Value(value_at(b, k), k + 1)
    } else if b.len() < MAX_LEN {
        Taken::Closed
    } else {
        Taken::TooLong
    }
}

/// Bytes of a stream that has been read to its end, and how far they have been taken.
pub struct Reader {
    bytes: Vec<u8>,
    pos: usize,
}

impl Reader {
    #[verifier::type_invariant]
    spec fn in_range(&self) -> bool {
        self.pos <= self.bytes@.len()
    }

    /// What is left of the stream.
    pub closed spec fn left(&self) -> Seq<u8> {
        self.bytes@.skip(self.pos as int)
    }

    pub fn new(bytes: Vec<u8>) -> (r: Reader)
        ensures
            r.left() == bytes@,
    {
        let r = Reader { bytes, pos: 0 };
        assert(r.left() =~= bytes@);
        r
    }

    /// The next byte, unless the stream is at its end.
    pub fn byte(&mut self) -> (r: Option<u8>)
        ensures
            match r {
                Some(b) => old(self).left().len() > 0 && b == old(self).left()[0]
                    && final(self).left() == old(self).left().skip(1),
                None => old(self).left().len() == 0 && final(self).left() == old(self).left(),
            },
    {
        proof {
            use_type_invariant(&*self);
        }
        if self.pos < self.bytes.len() {
            let b = self.bytes[self.pos];
            self.pos = self.pos + 1;
            assert(self.left() =~= old(self).left().skip(1));
            Some(b)
        } else {
            None
        }
    }

    /// The next `n` bytes, unless the stream ends before. Then it is taken to its end.
    pub fn take(&mut self, n: usize) -> (r: Option<Vec<u8>>)
        ensures
            match r {
                Some(v) => n <= old(self).left().len() && v@ == old(self).left().take(n as int)
                    && final(self).left() == old(self).left().skip(n as int),
                None => n > old(self).left().len() && final(self).left().len() == 0,
            },
    {
        proof {
            use_type_invariant(&*self);
        }
        if n <= self.bytes.len() - self.pos {
            let v = vstd::slice::slice_subrange(self.bytes.as_slice(), self.pos, self.pos + n);
            let mut out: Vec<u8> = Vec::new();
            out.extend_from_slice(v);
            self.pos = self.pos + n;
            assert(self.left() =~= old(self).left().skip(n as int));
            assert(out@ =~= old(self).left().take(n as int));
            Some(out)
        } else {
            self.pos = self.bytes.len();
            None
        }
    }
}

/// Read one varint byte by byte from a stream.
pub fn read(r: &mut Reader) -> (v: Result<u32, Error>)
    ensures
        match taken(old(r).left()) {
            Taken::Value(x, n) => v == Ok::<u32, Error>(x) && final(r).left()
                == old(r).left().skip(n as int),
            Taken::Closed => v is Err && v->Err_0@ == Fault::Closed && final(r).left().len() == 0,
            Taken::TooLong => v is Err && v->Err_0@ == Fault::Frame("varint too long"@)
                && final(r).left() == old(r).left().skip(MAX_LEN as int),
        },
{
    let ghost b = r.left();
    let mut sum: u64 = 0;
    let mut unit: u64 = 1;
    let mut i: usize = 0;
    assert(b.skip(0) =~= b);
    while i < MAX_LEN
        invariant
            i <= MAX_LEN,
            i <= b.len(),
            b == old(r).left(),
            r.left() == b.skip(i as int),
            forall|j: int| 0 <= j < i ==> #[trigger] b[j] >= 128,
            sum == groups(b, i as nat),
            unit == scale(i as nat),
            sum < scale(i as nat),
        decreases MAX_LEN - i,
    {
        proof {
            lemma_scale(i as nat);
            lemma_stop_from(b, i as nat);
        }
        let c = match r.byte() {
            Some(c) => c,
            None => {
                return Err(Error::Closed);
            },
        };
        proof {
            assert(b.skip(i as int).skip(1) =~= b.skip(i + 1));
            assert((c % 128) as nat * scale(i as nat) <= 127 * scale(i as nat)) by (nonlinear_arith)
                requires
                    c % 128 <= 127,
            ;
            assert(scale((i + 1) as nat) == 128 * scale(i as nat));
        }
        sum = sum + (c % 128) as u64 * unit;
        if c < 128 {
            return Ok((sum % 0x1_0000_0000) as u32);
        }
        unit = unit * 128;
        i += 1;
    }
    proof {
        lemma_stop_from(b, MAX_LEN as nat);
        lemma_stop_bounds(b, MAX_LEN as nat);
    }
    Err(Error::Frame("varint too long"))
}

/// Parse a varint from the start of a buffer. `Ok(None)` if more bytes are needed.
pub fn parse(buf: &[u8]) -> (r: Result<Option<(u32, usize)>, Error>)
    ensures
        match parsed(buf@) {
            Parsed::Value(v, n) => r == Ok::<Option<(u32, usize)>, Error>(Some((v, n as usize))),
            Parsed::Part => r is Ok && r->Ok_0 is None,
            Parsed::TooLong => r is Err && r->Err_0@ == Fault::Frame("varint too long"@),
        },
{
    let ghost b = buf@;
    let mut sum: u64 = 0;
    let mut unit: u64 = 1;
    let mut i: usize = 0;
    while i < buf.len()
        invariant
            i <= MAX_LEN,
            i <= b.len(),
            b == buf@,
            forall|j: int| 0 <= j < i ==> #[trigger] b[j] >= 128,
            sum == groups(b, i as nat),
            unit == scale(i as nat),
            sum < scale(i as nat),
        decreases buf.len() - i,
    {
        proof {
            lemma_stop_from(b, i as nat);
            lemma_stop_bounds(b, i as nat);
        }
        if i >= MAX_LEN {
            return Err(Error::Frame("varint too long"));
        }
        let c = buf[i];
        proof {
            lemma_scale(i as nat);
            assert((c % 128) as nat * scale(i as nat) <= 127 * scale(i as nat)) by (nonlinear_arith)
                requires
                    c % 128 <= 127,
            ;
            assert(scale((i + 1) as nat) == 128 * scale(i as nat));
        }
        sum = sum + (c % 128) as u64 * unit;
        if c < 128 {
            return Ok(Some(((sum % 0x1_0000_0000) as u32, i + 1)));
        }
        unit = unit * 128;
        i += 1;
    }
    proof {
        lemma_stop_from(b, b.len());
    }
    Ok(None)
}

proof fn lemma_scale(n: nat)
    requires
        n <= MAX_LEN,
    ensures
        1 <= scale(n) <= 0x8_0000_0000,
{
    reveal_with_fuel(scale, 6);
}

/// Where the varint of `v` ends, and what it stands for, whatever follows it.
pub proof fn lemma_bytes_of(v: nat, rest: Seq<u8>)
    ensures
        bytes_of(v).len() >= 1,
        stop(bytes_of(v) + rest, 0) == bytes_of(v).len() - 1,
        groups(bytes_of(v) + rest, bytes_of(v).len()) == v,
        forall|i: int| 0 <= i < bytes_of(v).len() - 1 ==> #[trigger] bytes_of(v)[i] >= 128,
    decreases v,
{
    let all = bytes_of(v) + rest;
    if v < 128 {
        assert(all[0] == v as u8);
        lemma_first_group(all);
    } else {
        lemma_bytes_of(v / 128, rest);
        let tail = bytes_of(v / 128) + rest;
        let n = bytes_of(v / 128).len();
        assert(all =~= seq![(v % 128 + 128) as u8] + tail);
        assert forall|i: int| 0 <= i < n implies #[trigger] all[i] >= 128 by {
            if i > 0 {
                assert(all[i] == tail[i - 1]);
                assert(tail[i - 1] == bytes_of(v / 128)[i - 1]);
            }
        }
        assert forall|i: int| 0 <= i < n implies #[trigger] bytes_of(v)[i] >= 128 by {
            assert(bytes_of(v)[i] == all[i]);
        }
        lemma_stop_from(all, n);
        lemma_stop_bounds(tail, 0);
        assert(all[n as int] == tail[n - 1]);
        lemma_groups_shift(all, tail, n);
        assert(all[0] % 128 == v % 128);
    }
}

proof fn lemma_first_group(b: Seq<u8>)
    ensures
        groups(b, 1) == (b[0] % 128) as nat,
{
    reveal_with_fuel(groups, 2);
    assert((b[0] % 128) as nat * scale(0) == (b[0] % 128) as nat) by (nonlinear_arith)
        requires
            scale(0) == 1,
    ;
}

proof fn lemma_groups_shift(all: Seq<u8>, tail: Seq<u8>, n: nat)
    requires
        all.len() == tail.len() + 1,
        n <= tail.len(),
        forall|i: int| 0 <= i < n ==> #[trigger] all[i + 1] == tail[i],
    ensures
        groups(all, n + 1) == (all[0] % 128) as nat + 128 * groups(tail, n),
    decreases n,
{
    if n == 0 {
        lemma_first_group(all);
    } else {
        lemma_groups_shift(all, tail, (n - 1) as nat);
        let x = (tail[n - 1] % 128) as nat;
        assert(all[n as int] == tail[n - 1]) by {
            assert(all[(n - 1) + 1] == tail[n - 1]);
        }
        assert(x * scale(n) == 128 * (x * scale((n - 1) as nat))) by (nonlinear_arith)
            requires
                scale(n) == 128 * scale((n - 1) as nat),
        ;
    }
}

/// A varint that was read lies within the bytes.
pub proof fn lemma_taken(b: Seq<u8>)
    ensures
        taken(b) matches Taken::Value(v, n) ==> 1 <= n <= b.len(),
{
    lemma_stop_bounds(b, 0);
}

pub proof fn lemma_parsed(b: Seq<u8>)
    ensures
        parsed(b) matches Parsed::Value(v, n) ==> 1 <= n <= b.len() && n <= MAX_LEN,
{
    lemma_stop_bounds(b, 0);
}

/// How long the varint of `v` is.
pub proof fn lemma_bytes_of_len(v: nat, n: nat)
    requires
        v < scale(n),
        n >= 1,
    ensures
        bytes_of(v).len() <= n,
    decreases n,
{
    if v >= 128 {
        if n == 1 {
            reveal_with_fuel(scale, 2);
        }
        assert(scale(n) == 128 * scale((n - 1) as nat));
        lemma_bytes_of_len(v / 128, (n - 1) as nat);
    }
}

proof fn lemma_bytes_of_u32(v: u32)
    ensures
        bytes_of(v as nat).len() <= MAX_LEN,
{
    reveal_with_fuel(scale, 6);
    lemma_bytes_of_len(v as nat, 5);
}

/// Parsing gives back what was encoded, whatever follows it in the buffer.
pub proof fn law_varint_round_trips(v: u32, rest: Seq<u8>)
    ensures
        parsed(bytes_of(v as nat) + rest) == Parsed::Value(v, bytes_of(v as nat).len()),
        taken(bytes_of(v as nat) + rest) == Taken::Value(v, bytes_of(v as nat).len()),
{
    lemma_bytes_of(v as nat, rest);
    lemma_bytes_of_u32(v);
}

/// A part of a varint asks for more bytes, and is neither a value nor an error.
pub proof fn law_part_of_a_varint_asks_for_more(v: u32, n: int)
    requires
        0 <= n < bytes_of(v as nat).len(),
    ensures
        parsed(bytes_of(v as nat).take(n)) == Parsed::Part,
        taken(bytes_of(v as nat).take(n)) == Taken::Closed,
{
    lemma_bytes_of(v as nat, Seq::empty());
    lemma_bytes_of_u32(v);
    let b = bytes_of(v as nat);
    assert forall|i: int| 0 <= i < n implies #[trigger] b.take(n)[i] >= 128 by {
        assert(b[i] >= 128);
    }
    lemma_stop_from(b.take(n), n as nat);
}

} // verus!
