//! Which log lines go to the clients that subscribed to logs, and how they look there.

use vstd::prelude::*;
use vstd::string::*;

use crate::text;

verus! {

#[derive(Debug, Clone, Copy, PartialEq, Eq, Structural)]
pub enum Level {
    Error,
    Warn,
    Info,
    Debug,
    Trace,
}

/// The number of a level in the API, and its letter.
pub open spec fn marks(level: Level) -> (i32, Seq<char>) {
    match level {
        Level::Error => (1, "E"@),
        Level::Warn => (2, "W"@),
        Level::Info => (3, "I"@),
        Level::Debug => (5, "D"@),
        Level::Trace => (6, "V"@),
    }
}

/// Two colons stand at `i`.
pub open spec fn colons_at(s: Seq<char>, i: int) -> bool {
    0 <= i && i + 1 < s.len() && s[i] == ':' && s[i + 1] == ':'
}

/// `r` is the last segment of the path `s`: what follows its last two colons, or all of it.
pub open spec fn last_segment(s: Seq<char>, r: Seq<char>) -> bool {
    ||| (forall|i: int| !colons_at(s, i)) && r == s
    ||| exists|i: int|
        #![trigger colons_at(s, i)]
        colons_at(s, i) && r == s.skip(i + 2) && forall|j: int| j > i ==> !colons_at(s, j)
}

/// The last segment of a path.
pub fn segment(target: &str) -> (r: String)
    ensures
        last_segment(target@, r@),
{
    let v = text::chars_of(target);
    let mut i: usize = v.len();
    while i >= 2
        invariant
            i <= v@.len(),
            v@ == target@,
            forall|j: int| j >= i - 1 ==> !colons_at(v@, j),
        decreases i,
    {
        if v[i - 2] == ':' && v[i - 1] == ':' {
            assert(colons_at(v@, i - 2));
            let r = text::string_of(&v, i, v.len());
            assert(r@ =~= v@.skip(i as int));
            return r;
        }
        i -= 1;
    }
    let r = text::string_of(&v, 0, v.len());
    assert(r@ =~= v@);
    r
}

/// The line is forwarded: never the API layer's own chatter, as sending it would generate more
/// of it, and nothing below debug.
pub open spec fn forwarded(target: Seq<char>, level: Level) -> bool {
    !text::begins_with(target, "esphome_api"@) && level != Level::Trace
}

/// A line as it is sent.
pub open spec fn line(level: Level, segment: Seq<char>, message: Seq<char>) -> Seq<char> {
    "["@ + marks(level).1 + "]["@ + segment + "]: "@ + message
}

/// What is sent for a log record: the level's number and the line. Nothing, if it is not
/// forwarded.
pub fn forward(target: &str, level: Level, message: &str) -> (r: Option<(i32, String)>)
    ensures
        match r {
            Some(x) => {
                &&& forwarded(target@, level)
                &&& x.0 == marks(level).0
                &&& exists|s: Seq<char>| #[trigger]
                    last_segment(target@, s) && x.1@ == line(level, s, message@)
            },
            None => !forwarded(target@, level),
        },
{
    if text::starts_with(target, "esphome_api") || level == Level::Trace {
        return None;
    }
    let (number, letter): (i32, &str) = match level {
        Level::Error => (1, "E"),
        Level::Warn => (2, "W"),
        Level::Info => (3, "I"),
        Level::Debug => (5, "D"),
        Level::Trace => (6, "V"),
    };
    let seg = segment(target);
    let mut s = String::from_str("[");
    s.append(letter);
    s.append("][");
    s.append(seg.as_str());
    s.append("]: ");
    s.append(message);
    assert(last_segment(target@, seg@) && s@ == line(level, seg@, message@));
    Some((number, s))
}

} // verus!
