//! Build-time secrets: the variables that a `secrets.env` sets, and its fingerprint.

use vstd::prelude::*;
use vstd::string::*;
use vstd::utf8::*;

use crate::firmware::crash;
use crate::text;

verus! {

/// FNV-1a of the first `n` bytes.
pub open spec fn fnv1a(b: Seq<u8>, n: nat) -> u64
    decreases n,
{
    if n == 0 {
        0xcbf29ce484222325
    } else {
        (((fnv1a(b, (n - 1) as nat) ^ (b[n - 1] as u64)) * 0x100000001b3)
            % 0x1_0000_0000_0000_0000) as u64
    }
}

/// The fingerprint of a text: FNV-1a of its bytes in 16 hexadecimal digits.
pub open spec fn fingerprint(s: Seq<char>) -> Seq<char> {
    crash::hex(fnv1a(encode_utf8(s), encode_utf8(s).len()) as nat, 16)
}

/// Fingerprint so a changed secrets.env re-seeds the stored settings on the next boot.
pub fn seed_hash(s: &str) -> (r: String)
    ensures
        r@ == fingerprint(s@),
{
    let b = s.as_bytes();
    let mut h: u64 = 0xcbf29ce484222325;
    let mut i: usize = 0;
    while i < b.len()
        invariant
            i <= b@.len(),
            b@ == encode_utf8(s@),
            h == fnv1a(b@, i as nat),
        decreases b.len() - i,
    {
        h = (h ^ (b[i] as u64)).wrapping_mul(0x100000001b3);
        i += 1;
    }
    let mut out = String::new();
    crash::push_hex(&mut out, h, 16);
    assert(out@ =~= fingerprint(s@));
    out
}

/// The variable that a line sets: `NAME=value`, with space around both removed. Empty lines,
/// comments and other lines set none.
pub open spec fn variable(line: Seq<char>) -> Option<(Seq<char>, Seq<char>)> {
    let l = text::trimmed(line);
    if l.len() == 0 || l[0] == '#' {
        None
    } else {
        match text::after(l, '=') {
            Some(v) => Some(
                ("SEED_"@ + text::trimmed(text::until(l, '=')), text::trimmed(v)),
            ),
            None => None,
        }
    }
}

/// The variables that the lines of a text set, in order.
pub open spec fn variables(s: Seq<char>) -> Seq<(Seq<char>, Seq<char>)>
    decreases s.len(),
{
    let first = match variable(text::until(s, '\n')) {
        Some(v) => seq![v],
        None => seq![],
    };
    match text::after(s, '\n') {
        Some(rest) => if rest.len() < s.len() {
            first + variables(rest)
        } else {
            first
        },
        None => first,
    }
}

fn parse_line(line: &str) -> (r: Option<(String, String)>)
    ensures
        match variable(line@) {
            Some(v) => r is Some && (r->0).0@ == v.0 && (r->0).1@ == v.1,
            None => r is None,
        },
{
    let l = text::trim(line);
    let chars = text::chars_of(l.as_str());
    if chars.len() == 0 || chars[0] == '#' {
        return None;
    }
    let (k, v) = text::cut(l.as_str(), '=');
    match v {
        Some(v) => {
            let key = text::trim(k.as_str());
            let mut name = String::from_str("SEED_");
            name.append(key.as_str());
            Some((name, text::trim(v.as_str())))
        },
        None => None,
    }
}

/// The variables that a `secrets.env` sets, in order.
pub fn seed_variables(s: &str) -> (r: Vec<(String, String)>)
    ensures
        r@.map_values(|x: (String, String)| (x.0@, x.1@)) == variables(s@),
{
    let mut out: Vec<(String, String)> = Vec::new();
    let mut rest: String = s.to_owned();
    let mut more: bool = true;
    let ghost pair = |x: (String, String)| (x.0@, x.1@);
    assert(out@.map_values(pair) + variables(s@) =~= variables(s@));
    while more
        invariant
            pair == (|x: (String, String)| (x.0@, x.1@)),
            more ==> out@.map_values(pair) + variables(rest@) == variables(s@),
            !more ==> out@.map_values(pair) == variables(s@),
        decreases
            if more {
                rest@.len() + 1
            } else {
                0
            },
    {
        let (line, tail) = text::cut(rest.as_str(), '\n');
        let ghost before = out@.map_values(pair);
        let ghost first = match variable(line@) {
            Some(v) => seq![v],
            None => seq![],
        };
        if let Some(v) = parse_line(line.as_str()) {
            out.push(v);
        }
        assert(out@.map_values(pair) =~= before + first);
        proof {
            text::lemma_cut(rest@, '\n');
        }
        match tail {
            Some(t) => {
                assert(before + (first + variables(t@)) =~= before + first + variables(t@));
                rest = t;
            },
            None => {
                more = false;
            },
        }
    }
    out
}

} // verus!
