//! Crash reporting: what is said about the crash that a previous boot left behind.

use vstd::prelude::*;
use vstd::string::*;

use crate::api::device;
use crate::text;

verus! {

/// The longest report that is stored, in characters.
pub const MAX_REPORT: usize = 400;

/// The longest panic message that is stored, in characters.
pub const MAX_PANIC: usize = 200;

/// The summary of a core dump.
#[derive(Debug)]
pub struct Summary {
    pub task: String,
    pub cause: u32,
    pub pc: u32,
    pub addr: u32,
}

/// A core dump in flash, if there is one.
#[derive(Debug)]
pub enum Dump {
    Nothing,
    Unreadable,
    Readable(Summary),
}

/// The last `n` hexadecimal digits of a number, lowercase.
pub open spec fn hex(v: nat, n: nat) -> Seq<char>
    decreases n,
{
    if n == 0 {
        seq![]
    } else {
        hex(v / 16, (n - 1) as nat).push(device::hex_digit((v % 16) as u8))
    }
}

/// What a dump says.
pub open spec fn dump_text(dump: Dump) -> Seq<char> {
    match dump {
        Dump::Nothing => seq![],
        Dump::Unreadable => "core dump present but unreadable"@,
        Dump::Readable(s) => "task "@ + s.task@ + ", cause "@ + text::decimal(s.cause as nat)
            + ", pc 0x"@ + hex(s.pc as nat, 8) + ", addr 0x"@ + hex(s.addr as nat, 8),
    }
}

/// What dump and panic message say together.
pub open spec fn report_text(dump: Dump, panic: Option<Seq<char>>) -> Seq<char> {
    match panic {
        Some(m) => if dump_text(dump).len() > 0 {
            dump_text(dump) + " | "@ + m
        } else {
            m
        },
        None => dump_text(dump),
    }
}

/// The first `n` characters.
pub open spec fn short(s: Seq<char>, n: nat) -> Seq<char> {
    if s.len() <= n {
        s
    } else {
        s.take(n as int)
    }
}

/// Append the last `n` hexadecimal digits of a number.
pub fn push_hex(out: &mut String, v: u64, n: usize)
    requires
        n <= 16,
    ensures
        final(out)@ == old(out)@ + hex(v as nat, n as nat),
    decreases n,
{
    if n > 0 {
        push_hex(out, v / 16, n - 1);
        let d: u8 = (v % 16) as u8;
        let c: char = if d < 10 {
            (d + 48) as char
        } else {
            (d + 87) as char
        };
        out.push(c);
        assert(out@ =~= old(out)@ + hex(v as nat, n as nat));
    } else {
        assert(out@ =~= old(out)@ + hex(v as nat, n as nat));
    }
}

fn describe(dump: &Dump) -> (r: String)
    ensures
        r@ == dump_text(*dump),
{
    match dump {
        Dump::Nothing => String::new(),
        Dump::Unreadable => String::from_str("core dump present but unreadable"),
        Dump::Readable(s) => {
            let mut r = String::from_str("task ");
            r.append(s.task.as_str());
            r.append(", cause ");
            text::push_decimal(&mut r, s.cause as u64);
            r.append(", pc 0x");
            push_hex(&mut r, s.pc as u64, 8);
            r.append(", addr 0x");
            push_hex(&mut r, s.addr as u64, 8);
            r
        },
    }
}

/// The report on the last boot's crash, and the part of it that is stored. `None` when the last
/// boot did not crash.
pub fn collect(uptime_hint: &str, dump: Dump, panic_msg: Option<String>) -> (r: Option<
    (String, String),
>)
    ensures
        match r {
            Some(x) => {
                let panic = match panic_msg {
                    Some(m) => Some(m@),
                    None => None,
                };
                &&& !(dump is Nothing && panic_msg is None)
                &&& x.0@ == uptime_hint@ + ": "@ + report_text(dump, panic)
                &&& x.1@ == short(x.0@, MAX_REPORT as nat)
            },
            None => dump is Nothing && panic_msg is None,
        },
{
    if let Dump::Nothing = dump {
        if panic_msg.is_none() {
            return None;
        }
    }
    let mut report = describe(&dump);
    if let Some(m) = &panic_msg {
        if !report.as_str().is_empty() {
            report.append(" | ");
            report.append(m.as_str());
        } else {
            report = m.clone();
        }
    }
    let mut full = String::from_str(uptime_hint);
    full.append(": ");
    full.append(report.as_str());
    let stored = text::shorten(full.as_str(), MAX_REPORT);
    Some((full, stored))
}

/// The part of a panic message that is stored.
pub fn panic_text(msg: &str) -> (r: String)
    ensures
        r@ == short(msg@, MAX_PANIC as nat),
{
    text::shorten(msg, MAX_PANIC)
}

/// The names of the reasons for a reset, by the system's number.
pub open spec fn reason_names() -> Seq<Seq<char>> {
    seq![
        "UNKNOWN"@,
        "POWER ON"@,
        "EXTERNAL"@,
        "SOFTWARE"@,
        "PANIC"@,
        "INTERRUPT WATCHDOG"@,
        "TASK WATCHDOG"@,
        "WATCHDOG"@,
        "DEEP SLEEP"@,
        "BROWNOUT"@,
        "SDIO"@,
    ]
}

/// Why the board was reset, as it is shown: from the system's number, which may be one that has no
/// name.
pub fn reset_reason(code: u32) -> (r: &'static str)
    ensures
        r@ == (if code < reason_names().len() {
            reason_names()[code as int]
        } else {
            "UNKNOWN"@
        }),
{
    match code {
        1 => "POWER ON",
        2 => "EXTERNAL",
        3 => "SOFTWARE",
        4 => "PANIC",
        5 => "INTERRUPT WATCHDOG",
        6 => "TASK WATCHDOG",
        7 => "WATCHDOG",
        8 => "DEEP SLEEP",
        9 => "BROWNOUT",
        10 => "SDIO",
        _ => "UNKNOWN",
    }
}

/// The stored report, from this or an earlier boot.
pub fn last_report(stored: Option<String>) -> (r: String)
    ensures
        r@ == (match stored {
            Some(s) => s@,
            None => "none"@,
        }),
{
    match stored {
        Some(s) => s,
        None => String::from_str("none"),
    }
}

/// The number that hexadecimal digits stand for.
pub open spec fn hex_value(s: Seq<char>) -> nat
    decreases s.len(),
{
    if s.len() == 0 {
        0
    } else {
        let c = s.last();
        let d = if c <= '9' {
            (c as int - '0' as int) as nat
        } else {
            (c as int - 'a' as int + 10) as nat
        };
        hex_value(s.drop_last()) * 16 + d
    }
}

/// A number in hexadecimal has as many digits as are asked for and stands for its number, if that
/// has no more.
pub proof fn law_hexadecimals_stand_for_their_number(v: nat, n: nat)
    ensures
        hex(v, n).len() == n,
        v < vstd::arithmetic::power::pow(16, n) ==> hex_value(hex(v, n)) == v,
    decreases n,
{
    reveal(vstd::arithmetic::power::pow);
    if n > 0 {
        law_hexadecimals_stand_for_their_number(v / 16, (n - 1) as nat);
        assert(hex(v, n).drop_last() =~= hex(v / 16, (n - 1) as nat));
        let p = vstd::arithmetic::power::pow(16, (n - 1) as nat);
        assert(vstd::arithmetic::power::pow(16, n) == 16 * p);
        assert(v < 16 * p ==> v / 16 < p);
    }
}

/// A report says what the dump says and what the panic message says, whichever there is.
pub proof fn law_reports_say_all_that_is_known(dump: Dump, m: Seq<char>)
    ensures
        report_text(Dump::Nothing, None).len() == 0,
        report_text(Dump::Nothing, Some(m)) == m,
        report_text(dump, None) == dump_text(dump),
        report_text(dump, Some(m)).len() >= dump_text(dump).len() + m.len(),
        report_text(dump, Some(m)).take(dump_text(dump).len() as int) == dump_text(dump),
        report_text(dump, Some(m)).skip(report_text(dump, Some(m)).len() - m.len()) == m,
{
    let r = report_text(dump, Some(m));
    assert(r.take(dump_text(dump).len() as int) =~= dump_text(dump));
    assert(r.skip(r.len() - m.len()) =~= m);
}

} // verus!
