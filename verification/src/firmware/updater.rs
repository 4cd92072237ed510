//! Firmware update discovery: compare the version on offer with the running one.

use vstd::prelude::*;

use crate::text;

verus! {

pub const LATEST_URL: &'static str =
    "https://raw.githubusercontent.com/cascalheira/esp32-cascalheira/main/waveshare/ESP32-S3-Relay-6CH/firmware/release/latest.json";

/// The largest description of a release that is read.
pub const MAX_BODY: usize = 8192;

/// When the device first looks for a new version, in seconds after it started.
pub const FIRST_CHECK: u64 = 60;

/// The time between looks after that, in seconds.
pub const CHECK_EVERY: u64 = 21_600;

/// The release on offer.
#[derive(Debug, Clone, PartialEq)]
pub struct Latest {
    pub version: String,
    pub url: String,
    pub summary: String,
    pub release_url: String,
}

/// More of the description has arrived; `Err` if it is too large.
pub fn take_body(body: &mut Vec<u8>, data: &[u8]) -> (r: Result<(), &'static str>)
    ensures
        final(body)@ == old(body)@ + data@,
        r is Ok <==> final(body)@.len() <= MAX_BODY,
        r matches Err(e) ==> e@ == "latest.json too large"@,
{
    body.extend_from_slice(data);
    assert(body@ =~= old(body)@ + data@);
    if body.len() > MAX_BODY {
        Err("latest.json too large")
    } else {
        Ok(())
    }
}

/// A number of a version, up to a pre-release mark.
pub open spec fn number(p: Seq<char>) -> Option<nat> {
    text::parsed_number(text::until(p, '-'), u32::MAX as nat)
}

/// The three numbers of a version: `1.2.3`, `v1.2`, `1.2.3-rc1`. The third may be missing.
pub open spec fn version(v: Seq<char>) -> Option<(nat, nat, nat)> {
    let s = text::stripped(text::trimmed(v), 'v');
    match text::after(s, '.') {
        None => None,
        Some(rest) => {
            let third = match text::after(rest, '.') {
                None => Some(0nat),
                Some(last) => number(text::until(last, '.')),
            };
            match (number(text::until(s, '.')), number(text::until(rest, '.')), third) {
                (Some(a), Some(b), Some(c)) => Some((a, b, c)),
                _ => None,
            }
        },
    }
}

/// `l` is a later version than `c`.
pub open spec fn later(l: (nat, nat, nat), c: (nat, nat, nat)) -> bool {
    l.0 > c.0 || (l.0 == c.0 && (l.1 > c.1 || (l.1 == c.1 && l.2 > c.2)))
}

/// An identifier of a pre-release that is a number.
pub open spec fn is_numeric(id: Seq<char>) -> bool {
    id.len() > 0 && text::all_digits(id)
}

/// The identifier `a` comes before `b`: numbers by their value, and before all others; those in
/// the order of their characters.
pub open spec fn lower(a: Seq<char>, b: Seq<char>) -> bool {
    if is_numeric(a) && is_numeric(b) {
        text::digits_value(a) < text::digits_value(b)
    } else if is_numeric(a) || is_numeric(b) {
        is_numeric(a)
    } else {
        text::precedes(a, b)
    }
}

/// The pre-release `a`, e.g. `rc.1`, comes before `b`: by the first identifiers that differ, and
/// if there are none the shorter comes first.
pub open spec fn earlier(a: Seq<char>, b: Seq<char>) -> bool
    decreases a.len(),
{
    let x = text::until(a, '.');
    let y = text::until(b, '.');
    if lower(x, y) || lower(y, x) {
        lower(x, y)
    } else {
        match (text::after(a, '.'), text::after(b, '.')) {
            (Some(p), Some(q)) => earlier(p, q),
            (None, Some(q)) => true,
            _ => false,
        }
    }
}

/// A version without the mark of a build, e.g. `+5`, that keeps its numbers from being read.
pub open spec fn unbuilt(v: Seq<char>) -> Seq<char> {
    if version(v) is Some {
        v
    } else {
        text::until(v, '+')
    }
}

/// The numbers of a version, whatever its build.
pub open spec fn numbers(v: Seq<char>) -> Option<(nat, nat, nat)> {
    version(unbuilt(v))
}

/// What a version is a pre-release of its numbers by, e.g. `rc1`; none if it is the release.
pub open spec fn pre(v: Seq<char>) -> Option<Seq<char>> {
    match text::after(unbuilt(v), '-') {
        Some(p) => Some(text::until(text::trimmed(p), '+')),
        None => None,
    }
}

/// The pre-release mark `c` comes before `l`; the release itself, which has none, comes last.
pub open spec fn pre_later(l: Option<Seq<char>>, c: Option<Seq<char>>) -> bool {
    match (l, c) {
        (None, Some(p)) => true,
        (Some(p), Some(q)) => earlier(q, p),
        _ => false,
    }
}

/// `latest` is strictly newer than `current`: by the numbers, and among the same numbers by the
/// pre-release.
pub open spec fn newer(latest: Seq<char>, current: Seq<char>) -> bool {
    match (numbers(latest), numbers(current)) {
        (Some(l), Some(c)) => later(l, c) || (l == c && pre_later(pre(latest), pre(current))),
        _ => false,
    }
}

fn parse_part(p: &str) -> (r: Option<u32>)
    ensures
        match number(p@) {
            Some(n) => r is Some && r->0 == n,
            None => r is None,
        },
{
    let (head, _) = text::cut(p, '-');
    match text::parse_number(head.as_str(), 0xffff_ffff) {
        Some(n) => Some(n as u32),
        None => None,
    }
}

/// The three numbers of a version.
pub fn parse_version(v: &str) -> (r: Option<(u32, u32, u32)>)
    ensures
        match version(v@) {
            Some(x) => r is Some && (r->0).0 == x.0 && (r->0).1 == x.1 && (r->0).2 == x.2,
            None => r is None,
        },
{
    let t = text::trim(v);
    let s = text::strip_front(t.as_str(), 'v');
    let (first, rest) = text::cut(s.as_str(), '.');
    let rest = match rest {
        Some(r) => r,
        None => return None,
    };
    let (second, last) = text::cut(rest.as_str(), '.');
    let third = match last {
        Some(l) => {
            let (p, _) = text::cut(l.as_str(), '.');
            parse_part(p.as_str())
        },
        None => Some(0),
    };
    match (parse_part(first.as_str()), parse_part(second.as_str()), third) {
        (Some(a), Some(b), Some(c)) => Some((a, b, c)),
        _ => None,
    }
}

fn numeric(v: &Vec<char>) -> (r: bool)
    ensures
        r == is_numeric(v@),
{
    let mut i: usize = 0;
    while i < v.len()
        invariant
            i <= v@.len(),
            forall|j: int| 0 <= j < i ==> text::is_digit(#[trigger] v@[j]),
        decreases v.len() - i,
    {
        if !(v[i] >= '0' && v[i] <= '9') {
            assert(!text::is_digit(v@[i as int]));
            return false;
        }
        i += 1;
    }
    v.len() > 0
}

/// The number written as `a` is smaller than the one written as `b`, of whatever size.
fn smaller(a: &Vec<char>, b: &Vec<char>) -> (r: bool)
    requires
        text::all_digits(a@),
        text::all_digits(b@),
    ensures
        r == (text::digits_value(a@) < text::digits_value(b@)),
{
    let n: usize = if a.len() < b.len() {
        b.len()
    } else {
        a.len()
    };
    // The numbers are read from the left, the shorter one with zeros in front.
    let (a0, b0): (usize, usize) = (n - a.len(), n - b.len());
    let mut below = false;
    let mut above = false;
    let mut i: usize = 0;
    let ghost mut x: nat = 0;
    let ghost mut y: nat = 0;
    assert(a@.take(0) =~= Seq::<char>::empty() && b@.take(0) =~= Seq::<char>::empty());
    while i < n
        invariant
            i <= n,
            a0 == n - a@.len(),
            b0 == n - b@.len(),
            a0 <= n,
            b0 <= n,
            text::all_digits(a@),
            text::all_digits(b@),
            x == text::digits_value(
                a@.take(
                    if i < a0 {
                        0
                    } else {
                        i - a0
                    },
                ),
            ),
            y == text::digits_value(
                b@.take(
                    if i < b0 {
                        0
                    } else {
                        i - b0
                    },
                ),
            ),
            below == (x < y),
            above == (x > y),
        decreases n - i,
    {
        let p: char = if i < a0 {
            '0'
        } else {
            a[i - a0]
        };
        let q: char = if i < b0 {
            '0'
        } else {
            b[i - b0]
        };
        proof {
            if i >= a0 {
                assert(text::is_digit(a@[i - a0]));
                assert(a@.take(i + 1 - a0).drop_last() =~= a@.take(i - a0));
            } else {
                assert(text::digits_value(a@.take(0)) == 0);
            }
            if i >= b0 {
                assert(text::is_digit(b@[i - b0]));
                assert(b@.take(i + 1 - b0).drop_last() =~= b@.take(i - b0));
            } else {
                assert(text::digits_value(b@.take(0)) == 0);
            }
            x = x * 10 + text::digit_value(p);
            y = y * 10 + text::digit_value(q);
        }
        if !below && !above {
            below = p < q;
            above = p > q;
        }
        i += 1;
    }
    assert(a@.take(a@.len() as int) =~= a@ && b@.take(b@.len() as int) =~= b@);
    below
}

fn is_lower(a: &str, b: &str) -> (r: bool)
    ensures
        r == lower(a@, b@),
{
    let x = text::chars_of(a);
    let y = text::chars_of(b);
    let p = numeric(&x);
    let q = numeric(&y);
    if p && q {
        smaller(&x, &y)
    } else if p || q {
        p
    } else {
        text::comes_before(a, b)
    }
}

fn is_earlier(a: &str, b: &str) -> (r: bool)
    ensures
        r == earlier(a@, b@),
    decreases a@.len(),
{
    let (x, a_rest) = text::cut(a, '.');
    let (y, b_rest) = text::cut(b, '.');
    let below = is_lower(x.as_str(), y.as_str());
    if below || is_lower(y.as_str(), x.as_str()) {
        return below;
    }
    proof {
        text::lemma_cut(a@, '.');
    }
    match (a_rest, b_rest) {
        (Some(p), Some(q)) => is_earlier(p.as_str(), q.as_str()),
        (None, Some(_)) => true,
        _ => false,
    }
}

/// The numbers of a version and what it is a pre-release by.
fn read_version(v: &str) -> (r: Option<((u32, u32, u32), Option<String>)>)
    ensures
        match numbers(v@) {
            Some(x) => {
                &&& r is Some
                &&& (r->0).0.0 == x.0 && (r->0).0.1 == x.1 && (r->0).0.2 == x.2
                &&& match pre(v@) {
                    Some(p) => (r->0).1 is Some && (r->0).1->0@ == p,
                    None => (r->0).1 is None,
                }
            },
            None => r is None,
        },
{
    let core = match parse_version(v) {
        Some(_) => v.to_owned(),
        None => {
            let (head, _) = text::cut(v, '+');
            head
        },
    };
    assert(core@ == unbuilt(v@));
    let n = match parse_version(core.as_str()) {
        Some(n) => n,
        None => return None,
    };
    let (_, mark) = text::cut(core.as_str(), '-');
    let mark = match mark {
        Some(m) => {
            let t = text::trim(m.as_str());
            let (p, _) = text::cut(t.as_str(), '+');
            Some(p)
        },
        None => None,
    };
    Some((n, mark))
}

/// True when `latest` is strictly newer than `current` (semantic version compare).
pub fn is_newer(latest: &str, current: &str) -> (r: bool)
    ensures
        r == newer(latest@, current@),
{
    match (read_version(latest), read_version(current)) {
        (Some((l, lp)), Some((c, cp))) => {
            if l.0 != c.0 {
                l.0 > c.0
            } else if l.1 != c.1 {
                l.1 > c.1
            } else if l.2 != c.2 {
                l.2 > c.2
            } else {
                match (lp, cp) {
                    (None, Some(_)) => true,
                    (Some(p), Some(q)) => is_earlier(q.as_str(), p.as_str()),
                    _ => false,
                }
            }
        },
        _ => false,
    }
}

/// The order of the identifiers is strict, and what neither comes before is on a level.
proof fn lemma_lower(a: Seq<char>, b: Seq<char>, c: Seq<char>)
    ensures
        !lower(a, a),
        lower(a, b) ==> !lower(b, a),
        lower(a, b) && lower(b, c) ==> lower(a, c),
        lower(a, b) && !lower(b, c) && !lower(c, b) ==> lower(a, c),
        !lower(a, b) && !lower(b, a) && lower(b, c) ==> lower(a, c),
        !lower(a, b) && !lower(b, a) && !lower(b, c) && !lower(c, b) ==> !lower(a, c) && !lower(
            c,
            a,
        ),
{
    text::lemma_precedes(a, b, c);
    text::lemma_precedes(b, c, a);
    text::lemma_precedes(c, a, b);
}

proof fn lemma_earlier(a: Seq<char>, b: Seq<char>, c: Seq<char>)
    ensures
        !earlier(a, a),
        earlier(a, b) ==> !earlier(b, a),
        earlier(a, b) && earlier(b, c) ==> earlier(a, c),
    decreases a.len() + b.len() + c.len(),
{
    let (x, y, z) = (text::until(a, '.'), text::until(b, '.'), text::until(c, '.'));
    lemma_lower(x, y, z);
    lemma_lower(y, x, z);
    lemma_lower(x, z, y);
    text::lemma_cut(a, '.');
    text::lemma_cut(b, '.');
    text::lemma_cut(c, '.');
    let rest = |s: Seq<char>|
        match text::after(s, '.') {
            Some(t) => t,
            None => Seq::<char>::empty(),
        };
    if text::after(a, '.') is Some || text::after(b, '.') is Some || text::after(c, '.') is Some {
        lemma_earlier(rest(a), rest(b), rest(c));
    }
}

/// Being newer is a strict order: nothing is newer than itself, no two versions are newer than
/// each other, and newer than newer is newer.
pub proof fn law_newer_is_a_strict_order(a: Seq<char>, b: Seq<char>, c: Seq<char>)
    ensures
        !newer(a, a),
        newer(a, b) ==> !newer(b, a),
        newer(a, b) && newer(b, c) ==> newer(a, c),
{
    let mark = |v: Seq<char>|
        match pre(v) {
            Some(p) => p,
            None => Seq::<char>::empty(),
        };
    lemma_earlier(mark(a), mark(b), mark(c));
    lemma_earlier(mark(b), mark(a), mark(c));
    lemma_earlier(mark(c), mark(b), mark(a));
}

/// Of two versions that can be read, one is newer unless their numbers are the same and they are
/// both the release, or neither's pre-release comes before the other's.
pub proof fn law_versions_can_be_compared(a: Seq<char>, b: Seq<char>)
    requires
        numbers(a) is Some,
        numbers(b) is Some,
    ensures
        newer(a, b) || newer(b, a) || {
            &&& numbers(a) == numbers(b)
            &&& match (pre(a), pre(b)) {
                (None, None) => true,
                (Some(p), Some(q)) => !earlier(p, q) && !earlier(q, p),
                _ => false,
            }
        },
{
}

/// A release is newer than every pre-release of it.
pub proof fn law_a_release_is_newer_than_its_pre_releases(release: Seq<char>, candidate: Seq<char>)
    requires
        numbers(release) is Some,
        numbers(release) == numbers(candidate),
        pre(release) is None,
        pre(candidate) is Some,
    ensures
        newer(release, candidate),
        !newer(candidate, release),
{
}

/// Digits that stand for a number a version can hold.
pub open spec fn is_part(p: Seq<char>) -> bool {
    is_numeric(p) && text::digits_value(p) <= u32::MAX
}

/// `v` is the plain version `x.y.z`, perhaps with a `v` in front.
pub open spec fn is_plain(v: Seq<char>, x: Seq<char>, y: Seq<char>, z: Seq<char>) -> bool {
    let s = x + seq!['.'] + (y + seq!['.'] + z);
    &&& is_part(x)
    &&& is_part(y)
    &&& is_part(z)
    &&& v == s || v == seq!['v'] + s
}

proof fn lemma_part(p: Seq<char>)
    requires
        is_part(p),
    ensures
        number(p) == Some(text::digits_value(p)),
        text::until(p, '.') == p,
        !p.contains('.'),
{
    assert(text::is_digit(p[0]));
    assert(!p.contains('-')) by {
        if p.contains('-') {
            let i = choose|i: int| 0 <= i < p.len() && p[i] == '-';
            assert(text::is_digit(p[i]));
        }
    }
    assert(!p.contains('.')) by {
        if p.contains('.') {
            let i = choose|i: int| 0 <= i < p.len() && p[i] == '.';
            assert(text::is_digit(p[i]));
        }
    }
    text::lemma_uncut(p, '-');
    text::lemma_uncut(p, '.');
}

proof fn lemma_plain(v: Seq<char>, x: Seq<char>, y: Seq<char>, z: Seq<char>)
    requires
        is_plain(v, x, y, z),
    ensures
        numbers(v) == Some((text::digits_value(x), text::digits_value(y), text::digits_value(z))),
        pre(v) is None,
{
    let rest = y + seq!['.'] + z;
    let s = x + seq!['.'] + rest;
    assert forall|i: int| 0 <= i < s.len() implies text::is_digit(#[trigger] s[i]) || s[i]
        == '.' by {
        if i < x.len() {
            assert(s[i] == x[i]);
        } else if x.len() < i < x.len() + 1 + y.len() {
            assert(s[i] == y[i - x.len() - 1]);
        } else if i > x.len() + 1 + y.len() {
            assert(s[i] == z[i - x.len() - y.len() - 2]);
        }
    }
    assert forall|i: int| 0 <= i < v.len() implies text::is_digit(#[trigger] v[i]) || v[i] == '.'
        || v[i] == 'v' by {
        if v != s {
            assert(v == seq!['v'] + s);
            if i > 0 {
                assert(v[i] == s[i - 1]);
            }
        }
    }
    text::lemma_trimmed_nothing(v);
    assert(text::stripped(v, 'v') == s) by {
        assert(text::is_digit(s[0]));
        if v != s {
            assert(v.drop_first() =~= s);
        }
        reveal_with_fuel(text::stripped, 2);
    }
    lemma_part(x);
    lemma_part(y);
    lemma_part(z);
    text::lemma_cut_between(x, '.', rest);
    text::lemma_cut_between(y, '.', z);
    assert(!v.contains('-')) by {
        if v.contains('-') {
            let i = choose|i: int| 0 <= i < v.len() && v[i] == '-';
            assert(text::is_digit(v[i]) || v[i] == '.' || v[i] == 'v');
        }
    }
    text::lemma_uncut(v, '-');
}

/// Plain versions `x.y.z`, with or without a `v` in front, compare as their three numbers: by the
/// first that differs.
pub proof fn law_plain_versions_compare_as_numbers(
    a: Seq<char>,
    b: Seq<char>,
    x: (Seq<char>, Seq<char>, Seq<char>),
    y: (Seq<char>, Seq<char>, Seq<char>),
)
    requires
        is_plain(a, x.0, x.1, x.2),
        is_plain(b, y.0, y.1, y.2),
    ensures
        newer(a, b) <==> later(
            (text::digits_value(x.0), text::digits_value(x.1), text::digits_value(x.2)),
            (text::digits_value(y.0), text::digits_value(y.1), text::digits_value(y.2)),
        ),
{
    lemma_plain(a, x.0, x.1, x.2);
    lemma_plain(b, y.0, y.1, y.2);
}

/// A version that cannot be read is neither newer than another nor older.
pub proof fn law_unreadable_versions_are_never_newer(a: Seq<char>, b: Seq<char>)
    requires
        numbers(a) is None,
    ensures
        !newer(a, b),
        !newer(b, a),
{
}

} // verus!
