//! Pull-style OTA: whether a download is whole, and what is said about it on the way.

use vstd::prelude::*;
use vstd::string::*;

use crate::text;

verus! {

/// A response is read only if its HTTP status is 200.
pub fn status_ok(status: u16) -> (r: Result<(), String>)
    ensures
        r is Ok <==> status == 200,
        r matches Err(e) ==> e@ == "http status "@ + text::decimal(status as nat),
{
    if status == 200 {
        Ok(())
    } else {
        let mut e = String::from_str("http status ");
        text::push_decimal(&mut e, status as u64);
        Err(e)
    }
}

/// The length that a `Content-Length` header announces.
pub fn content_length(header: Option<&str>) -> (r: Option<usize>)
    ensures
        match header {
            Some(h) => match text::parsed_number(text::trimmed(h@), usize::MAX as nat) {
                Some(n) => r is Some && r->0 == n,
                None => r is None,
            },
            None => r is None,
        },
{
    match header {
        Some(h) => {
            let t = text::trim(h);
            match text::parse_number(t.as_str(), usize::MAX as u64) {
                Some(n) => Some(n as usize),
                None => None,
            }
        },
        None => None,
    }
}

/// The size to announce to the flash writer: a length of zero is as good as none.
pub fn known_size(size: Option<usize>) -> (r: Option<usize>)
    ensures
        r == (if size == Some(0usize) {
            None
        } else {
            size
        }),
{
    match size {
        Some(n) => {
            if n > 0 {
                Some(n)
            } else {
                None
            }
        },
        None => None,
    }
}

/// A download in progress.
#[derive(Debug)]
pub struct Download {
    pub total: usize,
    pub expected: Option<usize>,
}

/// What is wrong with a download of `total` bytes, if anything.
pub open spec fn shortfall(total: nat, expected: Option<usize>) -> Option<Seq<char>> {
    match expected {
        Some(e) => if total != e {
            Some(
                "short download: "@ + text::decimal(total) + " of "@ + text::decimal(e as nat)
                    + " bytes"@,
            )
        } else {
            None
        },
        None => None,
    }
}

impl Download {
    pub fn new(expected: Option<usize>) -> (r: Download)
        ensures
            r.total == 0,
            r.expected == expected,
    {
        Download { total: 0, expected }
    }

    /// `n` bytes have been written.
    pub fn wrote(&mut self, n: usize)
        requires
            old(self).total + n <= usize::MAX,
        ensures
            *final(self) == (Download { total: (old(self).total + n) as usize, ..*old(self) }),
    {
        self.total = self.total + n;
    }

    /// Nothing more came: the number of bytes, or what is wrong.
    pub fn finish(&self) -> (r: Result<usize, String>)
        ensures
            match shortfall(self.total as nat, self.expected) {
                Some(e) => r is Err && r->Err_0@ == e,
                None => r == Ok::<usize, String>(self.total),
            },
    {
        match self.expected {
            Some(expected) => {
                if self.total != expected {
                    let mut s = String::from_str("short download: ");
                    text::push_decimal(&mut s, self.total as u64);
                    s.append(" of ");
                    text::push_decimal(&mut s, expected as u64);
                    s.append(" bytes");
                    return Err(s);
                }
                Ok(self.total)
            },
            None => Ok(self.total),
        }
    }
}

/// How much of a download has been reported, in percent.
#[derive(Debug)]
pub struct Progress {
    pub last_pct: usize,
}

/// How much of a download is done, in percent.
pub open spec fn percent(done: nat, total: nat) -> nat {
    done * 100 / (if total == 0 {
        1
    } else {
        total
    })
}

impl Progress {
    /// `done` of `total` bytes have been written: what to say, every ten percent.
    pub fn on_progress(&mut self, done: usize, total: Option<usize>) -> (r: Option<String>)
        requires
            done * 100 <= usize::MAX,
            old(self).last_pct + 10 <= usize::MAX,
        ensures
            match total {
                Some(t) => if percent(done as nat, t as nat) >= old(self).last_pct + 10 {
                    &&& final(self).last_pct == percent(done as nat, t as nat)
                    &&& r is Some
                    &&& (r->0)@ == "downloading "@ + text::decimal(percent(done as nat, t as nat))
                        + "%"@
                } else {
                    final(self).last_pct == old(self).last_pct && r is None
                },
                None => final(self).last_pct == old(self).last_pct && r is None,
            },
    {
        match total {
            Some(t) => {
                let base: usize = if t == 0 {
                    1
                } else {
                    t
                };
                let pct: usize = done * 100 / base;
                if pct >= self.last_pct + 10 {
                    self.last_pct = pct;
                    let mut s = String::from_str("downloading ");
                    text::push_decimal(&mut s, pct as u64);
                    s.append("%");
                    Some(s)
                } else {
                    None
                }
            },
            None => None,
        }
    }
}

/// What is said when an image is in place.
pub fn installed_text(bytes: usize) -> (r: String)
    ensures
        r@ == "installed "@ + text::decimal(bytes as nat) + " bytes, rebooting"@,
{
    let mut s = String::from_str("installed ");
    text::push_decimal(&mut s, bytes as u64);
    s.append(" bytes, rebooting");
    s
}

/// What is said when an update failed.
pub fn failed_text(why: &str) -> (r: String)
    ensures
        r@ == "failed: "@ + why@,
{
    let mut s = String::from_str("failed: ");
    s.append(why);
    s
}

/// What is said when a download starts.
pub fn downloading_text(url: &str) -> (r: String)
    ensures
        r@ == "downloading "@ + url@,
{
    let mut s = String::from_str("downloading ");
    s.append(url);
    s
}

/// The share of a download that is done grows with it, from nothing to all of it.
pub proof fn law_the_share_grows_to_all(done: nat, more: nat, total: nat)
    requires
        done <= more <= total,
        total > 0,
    ensures
        percent(0, total) == 0,
        percent(done, total) <= percent(more, total) <= 100,
        percent(total, total) == 100,
        percent(done, total) * total <= done * 100 < (percent(done, total) + 1) * total,
{
    let (a, b, c) = (done * 100, more * 100, total * 100);
    assert(0nat / total == 0) by (nonlinear_arith)
        requires
            total > 0,
    ;
    assert(c / total == 100) by (nonlinear_arith)
        requires
            total > 0,
            c == total * 100,
    ;
    assert(a / total <= b / total <= c / total) by (nonlinear_arith)
        requires
            total > 0,
            a <= b <= c,
    ;
    let p = a / total;
    assert(p * total <= a < (p + 1) * total) by (nonlinear_arith)
        requires
            total > 0,
            p == a / total,
    ;
}

/// A download is taken only if it has as many bytes as were announced; where nothing was
/// announced any number will do.
pub proof fn law_only_whole_downloads_are_taken(total: nat, expected: Option<usize>)
    ensures
        shortfall(total, expected) is None <==> (expected is None || expected->0 == total),
{
}

} // verus!
