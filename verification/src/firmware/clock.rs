//! What the wall clock's readings mean.

use vstd::prelude::*;
use vstd::string::*;

use crate::schedule::{LocalTime, Weekday};
use crate::text;

verus! {

/// Anything before 2024 means the clock was never set.
pub const MIN_VALID_EPOCH: u64 = 1_704_067_200;

/// What the system makes of a reading of its clock in its timezone.
#[derive(Debug, Clone, Copy, PartialEq, Eq)]
pub struct Fields {
    pub year: u16,
    /// Days since the first of January.
    pub yday: u16,
    /// 0 = Sunday.
    pub wday: i32,
    pub hour: u16,
    pub min: u16,
}

impl Fields {
    /// The key of the calendar day: it changes at local midnight, and comes back in no other year.
    pub open spec fn day_key(self) -> nat {
        (self.year * 366 + self.yday) as nat
    }

    /// Day, hour and minute are within their ranges.
    pub open spec fn in_range(self) -> bool {
        self.yday < 366 && self.hour < 24 && self.min < 60
    }
}

/// Every calendar day has a key of its own.
pub proof fn law_every_day_has_its_own_key(a: Fields, b: Fields)
    requires
        a.in_range(),
        b.in_range(),
    ensures
        a.day_key() == b.day_key() <==> a.year == b.year && a.yday == b.yday,
{
}

/// The timezone in use.
#[derive(Debug)]
pub struct Clock {
    tz: String,
}

impl View for Clock {
    type V = Seq<char>;

    closed spec fn view(&self) -> Seq<char> {
        self.tz@
    }
}

/// A local time for the eye, e.g. `Mon 07:05`.
pub open spec fn shown(t: Option<LocalTime>) -> Seq<char> {
    match t {
        Some(t) => t.weekday.short_name() + " "@ + text::two_digits((t.minute / 60) as nat) + ":"@
            + text::two_digits((t.minute % 60) as nat),
        None => "unknown"@,
    }
}

/// The clock has been set.
pub open spec fn valid(secs: u64) -> bool {
    secs >= MIN_VALID_EPOCH
}

/// The weekday at a position, from Monday on.
pub open spec fn weekday_at(p: int) -> Weekday {
    if p == 0 {
        Weekday::Mon
    } else if p == 1 {
        Weekday::Tue
    } else if p == 2 {
        Weekday::Wed
    } else if p == 3 {
        Weekday::Thu
    } else if p == 4 {
        Weekday::Fri
    } else if p == 5 {
        Weekday::Sat
    } else {
        Weekday::Sun
    }
}

/// The local time that a clock reading and what the system makes of it stand for.
pub open spec fn local_of(secs: u64, fields: Option<Fields>) -> Option<LocalTime> {
    match fields {
        Some(f) => if valid(secs) {
            Some(
                LocalTime {
                    weekday: weekday_at((f.wday + 6) % 7),
                    minute: (f.hour * 60 + f.min) as u16,
                    day: f.day_key() as u32,
                },
            )
        } else {
            None
        },
        None => None,
    }
}

/// The time of the week so many minutes later, as the clock runs now.
pub open spec fn minutes_later(t: LocalTime, minutes: nat) -> LocalTime {
    let m = t.weekday.position() as int * 1440 + t.minute + minutes;
    LocalTime { weekday: weekday_at(m / 1440 % 7), minute: (m % 1440) as u16, day: t.day }
}

/// Whole minutes from the minute of `secs` to that of `until`, none if that has passed.
pub open spec fn minutes_until(until: u64, secs: u64) -> nat {
    if until > secs {
        ((until - (secs - secs % 60)) / 60) as nat
    } else {
        0
    }
}

/// Until when a hold that ends at the Unix time `until` (0 = none) stands, for the eye.
pub open spec fn hold_text(until: u64, secs: u64, local: Option<LocalTime>) -> Seq<char> {
    if until == 0 {
        "none"@
    } else {
        match local {
            Some(t) => shown(Some(minutes_later(t, minutes_until(until, secs)))),
            None => "unknown"@,
        }
    }
}

impl Clock {
    /// A clock in the stored timezone, if there is one.
    pub fn new(tz: Option<String>) -> (r: Clock)
        ensures
            r@ == (match tz {
                Some(t) => t@,
                None => Seq::<char>::empty(),
            }),
    {
        let mut c = Clock { tz: String::new() };
        if let Some(tz) = tz {
            c.set_tz(tz.as_str());
            assert(c@ =~= tz@);
        }
        c
    }

    /// Take over a POSIX TZ string (e.g. `WET0WEST,M3.5.0/1,M10.5.0`). Returns true if it
    /// changed, and then it has to be handed to the system.
    pub fn set_tz(&mut self, tz: &str) -> (r: bool)
        ensures
            r == (tz@.len() > 0 && tz@ != old(self)@),
            final(self)@ == (if r {
                tz@
            } else {
                old(self)@
            }),
    {
        if tz.is_empty() || text::same(tz, self.tz.as_str()) {
            return false;
        }
        self.tz = tz.to_owned();
        true
    }

    /// The timezone in use; empty if none was set.
    pub fn tz(&self) -> (r: &str)
        ensures
            r@ == self@,
    {
        self.tz.as_str()
    }

    /// The time that the system clock's reading stands for, if the clock has been set.
    pub fn epoch(&self, secs: u64) -> (r: Option<u64>)
        ensures
            r == (if valid(secs) {
                Some(secs)
            } else {
                None
            }),
    {
        if secs >= MIN_VALID_EPOCH {
            Some(secs)
        } else {
            None
        }
    }

    /// The system clock's reading means something.
    pub fn time_known(&self, secs: u64) -> (r: bool)
        ensures
            r == valid(secs),
    {
        self.epoch(secs).is_some()
    }

    /// The local time: from the system clock's reading and what the system makes of it.
    pub fn local_time(&self, secs: u64, fields: Option<Fields>) -> (r: Option<LocalTime>)
        requires
            fields matches Some(f) ==> f.hour * 60 + f.min <= u16::MAX,
        ensures
            r == local_of(secs, fields),
            // The local time is the one that the fields name, whatever the day of the year.
            r is Some <==> secs >= 1_704_067_200 && fields is Some,
            r matches Some(t) ==> t.minute == (fields->0).hour * 60 + (fields->0).min,
            r matches Some(t) ==> t.weekday.position() == ((fields->0).wday + 6) % 7,
            r matches Some(t) ==> t.day == (fields->0).year * 366 + (fields->0).yday,
    {
        if !self.time_known(secs) {
            return None;
        }
        match fields {
            Some(f) => {
                let day: u32 = f.year as u32 * 366 + f.yday as u32;
                let t = LocalTime::new(Weekday::from_tm_wday(f.wday), f.hour, f.min);
                Some(t.with_day(day))
            },
            None => None,
        }
    }

    /// A local time for the eye.
    pub fn local_string(&self, t: Option<LocalTime>) -> (r: String)
        ensures
            r@ == shown(t),
    {
        match t {
            Some(t) => {
                let mut s = String::from_str(t.weekday.as_str());
                s.append(" ");
                text::push_two_digits(&mut s, t.minute / 60);
                s.append(":");
                text::push_two_digits(&mut s, t.minute % 60);
                s
            },
            None => String::from_str("unknown"),
        }
    }

    /// Until when a rain hold stands, for the eye: `none` without one.
    pub fn hold_string(&self, until: Option<u64>, secs: u64, local: Option<LocalTime>) -> (r: String)
        requires
            until != Some(0u64),
            local matches Some(t) ==> t.minute < 1440,
        ensures
            r@ == hold_text(
                match until {
                    Some(u) => u,
                    None => 0,
                },
                secs,
                local,
            ),
    {
        let until = match until {
            Some(u) => u,
            None => return String::from_str("none"),
        };
        let end = match local {
            Some(t) => {
                let left: u64 = if until > secs {
                    (until - (secs - secs % 60)) / 60
                } else {
                    0
                };
                let m: u64 = t.weekday.index() as u64 * 1440 + t.minute as u64 + left;
                let p: u64 = m / 1440 % 7;
                Some(
                    LocalTime {
                        weekday: Weekday::from_tm_wday((p as i32 + 1) % 7),
                        minute: (m % 1440) as u16,
                        day: t.day,
                    },
                )
            },
            None => None,
        };
        self.local_string(end)
    }
}

// ----- laws ------------------------------------------------------------------------------------------

/// The weekday that the system counts from Sunday on.
pub open spec fn is_weekday(w: Weekday, wday: int) -> bool {
    match w {
        Weekday::Sun => wday == 0,
        Weekday::Mon => wday == 1,
        Weekday::Tue => wday == 2,
        Weekday::Wed => wday == 3,
        Weekday::Thu => wday == 4,
        Weekday::Fri => wday == 5,
        Weekday::Sat => wday == 6,
    }
}

/// Once the clock has been set, the local time is the one that the system reads off it, on every
/// day of the year: hour and minute are those of the fields, and so is the weekday. Before 2024,
/// and without the fields, there is none.
pub proof fn law_the_local_time_is_the_systems(secs: u64, fields: Option<Fields>)
    requires
        fields matches Some(f) ==> f.in_range() && 0 <= f.wday < 7,
    ensures
        local_of(secs, fields) is Some <==> secs >= 1_704_067_200 && fields is Some,
        local_of(secs, fields) matches Some(t) ==> {
            let f = fields->0;
            &&& t.minute / 60 == f.hour
            &&& t.minute % 60 == f.min
            &&& t.minute < 1440
            &&& is_weekday(t.weekday, f.wday as int)
        },
{
}

/// Two local times are of the same calendar day exactly if the system says so: the day changes at
/// local midnight, and at no other time.
pub proof fn law_the_day_changes_at_local_midnight(secs: u64, f: Fields, later: u64, g: Fields)
    requires
        f.in_range(),
        g.in_range(),
        secs >= 1_704_067_200,
        later >= 1_704_067_200,
    ensures
        (local_of(secs, Some(f))->0).day == (local_of(later, Some(g))->0).day <==> f.year == g.year
            && f.yday == g.yday,
{
    law_every_day_has_its_own_key(f, g);
    assert(f.day_key() <= u32::MAX && g.day_key() <= u32::MAX);
}

/// A minute later the local time is a minute on, and after the last minute of a day comes the first
/// of the next weekday.
pub proof fn law_the_local_time_runs_with_the_clock(secs: u64, f: Fields, later: u64, g: Fields)
    requires
        f.in_range(),
        g.in_range(),
        0 <= f.wday < 7,
        0 <= g.wday < 7,
        secs >= 1_704_067_200,
        later >= 1_704_067_200,
        g.hour * 60 + g.min == (f.hour * 60 + f.min + 1) % 1440,
        g.wday == (if f.hour == 23 && f.min == 59 {
            (f.wday + 1) % 7
        } else {
            f.wday as int
        }),
    ensures
        ({
            let (s, t) = (local_of(secs, Some(f))->0, local_of(later, Some(g))->0);
            (t.weekday.position() * 1440 + t.minute) == (s.weekday.position() * 1440 + s.minute + 1)
                % 10_080
        }),
{
}

/// A local time for the eye is the weekday's three letters, the hour and the minute in two digits
/// each.
pub proof fn law_the_shown_time_can_be_read_back(t: LocalTime)
    requires
        t.minute < 1440,
    ensures
        ({
            let s = shown(Some(t));
            &&& s.len() == 9
            &&& s.take(3) == t.weekday.short_name()
            &&& s[3] == ' '
            &&& s[6] == ':'
            &&& text::all_digits(s.subrange(4, 6))
            &&& text::all_digits(s.subrange(7, 9))
            &&& text::digits_value(s.subrange(4, 6)) * 60 + text::digits_value(s.subrange(7, 9))
                == t.minute
        }),
{
    reveal_strlit(" ");
    reveal_strlit(":");
    reveal_strlit("Mon");
    reveal_strlit("Tue");
    reveal_strlit("Wed");
    reveal_strlit("Thu");
    reveal_strlit("Fri");
    reveal_strlit("Sat");
    reveal_strlit("Sun");
    let s = shown(Some(t));
    let w = t.weekday.short_name();
    let (h, m) = (text::two_digits((t.minute / 60) as nat), text::two_digits((t.minute % 60) as nat));
    assert(w.len() == 3);
    text::lemma_two_digits((t.minute / 60) as nat);
    text::lemma_two_digits((t.minute % 60) as nat);
    assert(s.take(3) =~= w);
    assert(s.subrange(4, 6) =~= h);
    assert(s.subrange(7, 9) =~= m);
}

/// A hold is shown with the time of the week at which it ends: as many minutes after the local time
/// as it still lasts, counted in whole minutes of the clock.
pub proof fn law_the_end_of_a_hold_is_shown(until: u64, secs: u64, t: LocalTime) -> (end: LocalTime)
    requires
        until > secs,
        t.minute < 1440,
    ensures
        hold_text(until, secs, Some(t)) == shown(Some(end)),
        end.minute < 1440,
        ({
            let left = until / 60 - secs / 60;
            end.weekday.position() * 1440 + end.minute == (t.weekday.position() * 1440 + t.minute
                + left) % 10_080
        }),
        hold_text(0, secs, Some(t)) == "none"@,
{
    let left = minutes_until(until, secs);
    assert(left == until / 60 - secs / 60);
    let end = minutes_later(t, left);
    let m = t.weekday.position() as int * 1440 + t.minute + left;
    assert(end.weekday.position() == m / 1440 % 7);
    assert(m / 1440 % 7 * 1440 + m % 1440 == m % 10_080) by (nonlinear_arith)
        requires
            m >= 0,
    {
        let q = m / 1440;
        let r = m % 1440;
        assert(m == q * 1440 + r);
        let w = q / 7;
        assert(q == w * 7 + q % 7);
        assert(m == w * 10_080 + (q % 7 * 1440 + r));
        assert(0 <= q % 7 * 1440 + r < 10_080);
    }
    end
}

} // verus!
