//! Weekly schedule model: per channel, a list of blocks of local minutes-since-midnight on a
//! set of weekdays.

use vstd::prelude::*;
use vstd::string::*;

use crate::board::CHANNELS;
use crate::text;

verus! {

pub const MINUTES_PER_DAY: u16 = 1440;

#[derive(Debug, Clone, Copy, PartialEq, Eq, PartialOrd, Ord, Structural)]
pub enum Weekday {
    Mon,
    Tue,
    Wed,
    Thu,
    Fri,
    Sat,
    Sun,
}

impl Weekday {
    /// Position in the week, Monday first.
    pub open spec fn position(self) -> u8 {
        match self {
            Weekday::Mon => 0,
            Weekday::Tue => 1,
            Weekday::Wed => 2,
            Weekday::Thu => 3,
            Weekday::Fri => 4,
            Weekday::Sat => 5,
            Weekday::Sun => 6,
        }
    }

    pub fn index(self) -> (r: u8)
        ensures
            r == self.position(),
    {
        match self {
            Weekday::Mon => 0,
            Weekday::Tue => 1,
            Weekday::Wed => 2,
            Weekday::Thu => 3,
            Weekday::Fri => 4,
            Weekday::Sat => 5,
            Weekday::Sun => 6,
        }
    }

    /// The three-letter name.
    pub open spec fn short_name(self) -> Seq<char> {
        match self {
            Weekday::Mon => "Mon"@,
            Weekday::Tue => "Tue"@,
            Weekday::Wed => "Wed"@,
            Weekday::Thu => "Thu"@,
            Weekday::Fri => "Fri"@,
            Weekday::Sat => "Sat"@,
            Weekday::Sun => "Sun"@,
        }
    }

    pub fn as_str(self) -> (r: &'static str)
        ensures
            r@ == self.short_name(),
    {
        match self {
            Weekday::Mon => "Mon",
            Weekday::Tue => "Tue",
            Weekday::Wed => "Wed",
            Weekday::Thu => "Thu",
            Weekday::Fri => "Fri",
            Weekday::Sat => "Sat",
            Weekday::Sun => "Sun",
        }
    }

    /// From C `tm_wday` (0 = Sunday).
    pub fn from_tm_wday(wday: i32) -> (r: Weekday)
        ensures
            r.position() == (wday + 6) % 7,
    {
        let w: i64 = (wday as i64 + 2147483653) % 7;
        if w == 1 {
            Weekday::Mon
        } else if w == 2 {
            Weekday::Tue
        } else if w == 3 {
            Weekday::Wed
        } else if w == 4 {
            Weekday::Thu
        } else if w == 5 {
            Weekday::Fri
        } else if w == 6 {
            Weekday::Sat
        } else {
            Weekday::Sun
        }
    }
}

/// Bit i set = active on weekday i (Mon = bit 0).
#[derive(Debug, Clone, Copy, PartialEq, Eq, Structural)]
pub struct DayMask(pub u8);

impl Default for DayMask {
    fn default() -> (r: Self)
        ensures
            r == DayMask(0),
    {
        DayMask(0)
    }
}

/// The letter that stands for weekday `i` in the seven-character form.
pub open spec fn day_letter(i: int) -> char {
    if i == 0 {
        'M'
    } else if i == 1 {
        'T'
    } else if i == 2 {
        'W'
    } else if i == 3 {
        'T'
    } else if i == 4 {
        'F'
    } else {
        'S'
    }
}

/// What the character `c` says about weekday `i`: on, off, or nothing valid.
pub open spec fn day_char(c: char, i: int) -> Option<bool> {
    if c == '-' {
        Some(false)
    } else if c == '_' || c == '.' || c == ' ' || text::ascii_lower_char(c)
        == text::ascii_lower_char(day_letter(i)) {
        Some(true)
    } else {
        None
    }
}

/// `s` is a well-formed seven-character day list.
pub open spec fn is_day_list(s: Seq<char>) -> bool {
    s.len() == 7 && forall|i: int| 0 <= i < 7 ==> (#[trigger] day_char(s[i], i)) is Some
}

/// `i` is the first position of `s` that says nothing valid.
pub open spec fn first_bad_day(s: Seq<char>, i: int) -> bool {
    &&& 0 <= i < 7
    &&& day_char(s[i], i) is None
    &&& forall|j: int| 0 <= j < i ==> (#[trigger] day_char(s[j], j)) is Some
}

/// `e` is what is said about a day list that is not well-formed.
pub open spec fn day_list_error(s: Seq<char>, e: Seq<char>) -> bool {
    if s.len() != 7 {
        e == "days must be 7 characters, got "@ + text::quoted(s)
    } else {
        exists|i: int| #[trigger]
            first_bad_day(s, i) && e == "unexpected "@ + text::quoted_char(s[i]) + " at position "@
                + text::decimal(i as nat) + " in "@ + text::quoted(s)
    }
}

fn letter(i: usize) -> (r: char)
    requires
        i < 7,
    ensures
        r == day_letter(i as int),
{
    if i == 0 {
        'M'
    } else if i == 1 {
        'T'
    } else if i == 2 {
        'W'
    } else if i == 3 {
        'T'
    } else if i == 4 {
        'F'
    } else {
        'S'
    }
}

proof fn lemma_set_bit(m: u8, i: u8)
    requires
        i < 7,
        m < (1u8 << i),
    ensures
        (m | (1u8 << i)) < 128,
        (m | (1u8 << i)) < (1u8 << ((i + 1) as u8)),
        m < (1u8 << ((i + 1) as u8)),
        (m | (1u8 << i)) & (1u8 << i) != 0,
        m & (1u8 << i) == 0,
        forall|j: u8| j < i ==> ((m | (1u8 << i)) & (1u8 << j) != 0 <==> m & #[trigger] (1u8 << j) != 0),
{
    assert((m | (1u8 << i)) < 128 && (m | (1u8 << i)) < (1u8 << ((i + 1) as u8)) && m < (1u8 << ((i
        + 1) as u8)) && (m | (1u8 << i)) & (1u8 << i) != 0 && m & (1u8 << i) == 0) by (bit_vector)
        requires
            i < 7,
            m < (1u8 << i),
    ;
    assert forall|j: u8| j < i implies ((m | (1u8 << i)) & (1u8 << j) != 0 <==> m & #[trigger] (
    1u8 << j) != 0) by {
        assert((m | (1u8 << i)) & (1u8 << j) == m & (1u8 << j)) by (bit_vector)
            requires
                j < i,
                i < 7,
                m < (1u8 << i),
        ;
    }
}

/// Testing a bit of the mask reads its binary digit.
proof fn lemma_digit(m: u8, k: u8)
    requires
        k < 7,
    ensures
        (m & (1u8 << k) != 0) == DayMask(m).on(k as int),
{
    assert((m & (1u8 << 0u8) != 0) == (m % 2 == 1) && (m & (1u8 << 1u8) != 0) == (m / 2 % 2 == 1)
        && (m & (1u8 << 2u8) != 0) == (m / 4 % 2 == 1) && (m & (1u8 << 3u8) != 0) == (m / 8 % 2
        == 1) && (m & (1u8 << 4u8) != 0) == (m / 16 % 2 == 1) && (m & (1u8 << 5u8) != 0) == (m / 32
        % 2 == 1) && (m & (1u8 << 6u8) != 0) == (m / 64 % 2 == 1)) by (bit_vector);
}

impl DayMask {
    /// Every weekday.
    pub fn all() -> (r: DayMask)
        ensures
            r == DayMask(0x7f),
    {
        DayMask(0x7f)
    }

    /// Weekday `i` is in the mask: the binary digit of weight two to the `i` is one.
    pub open spec fn on(self, i: int) -> bool {
        if i == 0 {
            self.0 % 2 == 1
        } else if i == 1 {
            self.0 / 2 % 2 == 1
        } else if i == 2 {
            self.0 / 4 % 2 == 1
        } else if i == 3 {
            self.0 / 8 % 2 == 1
        } else if i == 4 {
            self.0 / 16 % 2 == 1
        } else if i == 5 {
            self.0 / 32 % 2 == 1
        } else {
            i == 6 && self.0 / 64 % 2 == 1
        }
    }

    /// The seven-character form of the mask.
    pub open spec fn letters(self) -> Seq<char> {
        Seq::new(
            7,
            |i: int|
                if self.on(i) {
                    day_letter(i)
                } else {
                    '-'
                },
        )
    }

    pub fn contains(self, d: Weekday) -> (r: bool)
        ensures
            r == self.on(d.position() as int),
    {
        let k: u8 = d.index();
        proof {
            lemma_digit(self.0, k);
        }
        self.0 & (1u8 << k) != 0
    }

    /// Parse the 7-character form used on the wire, e.g. `"MTWTF--"`. Any
    /// character but `-` in a position enables that day: the day's own letter in either case, `_`,
    /// `.` or a space. Another one is an error.
    pub fn parse(s: &str) -> (r: Result<DayMask, String>)
        ensures
            match r {
                Ok(m) => is_day_list(s@) && m.0 < 128 && forall|i: int|
                    0 <= i < 7 ==> #[trigger] day_char(s@[i], i) == Some(m.on(i)),
                Err(e) => !is_day_list(s@) && day_list_error(s@, e@),
            },
    {
        let chars = text::chars_of(s);
        if chars.len() != 7 {
            let mut e = String::from_str("days must be 7 characters, got ");
            e.append(text::quote(s).as_str());
            return Err(e);
        }
        let mut m: u8 = 0;
        let mut i: usize = 0;
        assert(m < (1u8 << 0u8)) by (bit_vector)
            requires
                m == 0,
        ;
        while i < 7
            invariant
                i <= 7,
                chars@ == s@,
                chars@.len() == 7,
                i < 7 ==> m < (1u8 << (i as u8)),
                m < 128,
                forall|j: int|
                    0 <= j < i ==> #[trigger] day_char(s@[j], j) == Some(DayMask(m).on(j)),
            decreases 7 - i,
        {
            let c = chars[i];
            let k: u8 = i as u8;
            proof {
                lemma_set_bit(m, k);
                lemma_digit(m, k);
                lemma_digit(m | (1u8 << k), k);
                assert forall|j: int| 0 <= j < i implies #[trigger] day_char(s@[j], j) == Some(
                    DayMask(m | (1u8 << k)).on(j),
                ) by {
                    let jj = j as u8;
                    assert(jj < k);
                    lemma_digit(m, jj);
                    lemma_digit(m | (1u8 << k), jj);
                    assert((m | (1u8 << k)) & (1u8 << jj) != 0 <==> m & (1u8 << jj) != 0);
                }
            }
            if c == '-' {
                assert(day_char(s@[i as int], i as int) == Some(DayMask(m).on(i as int)));
            } else if c == '_' || c == '.' || c == ' ' || text::lower_char(c) == text::lower_char(
                letter(i),
            ) {
                m = m | (1u8 << k);
                assert(day_char(s@[i as int], i as int) == Some(DayMask(m).on(i as int)));
            } else {
                assert(first_bad_day(s@, i as int));
                let mut e = String::from_str("unexpected ");
                e.append(text::quote_char(c).as_str());
                e.append(" at position ");
                text::push_decimal(&mut e, i as u64);
                e.append(" in ");
                e.append(text::quote(s).as_str());
                return Err(e);
            }
            i += 1;
        }
        Ok(DayMask(m))
    }

    /// The 7-character form.
    pub fn to_string(&self) -> (r: String)
        ensures
            r@ == self.letters(),
    {
        let mut out = String::new();
        let mut i: usize = 0;
        while i < 7
            invariant
                i <= 7,
                out@ == self.letters().take(i as int),
            decreases 7 - i,
        {
            let k: u8 = i as u8;
            proof {
                lemma_digit(self.0, k);
            }
            out.push(
                if self.0 & (1u8 << k) != 0 {
                    letter(i)
                } else {
                    '-'
                },
            );
            assert(out@ =~= self.letters().take(i + 1));
            i += 1;
        }
        assert(self.letters().take(7) =~= self.letters());
        out
    }
}

/// The written form of a mask is a well-formed day list that says of every weekday what the
/// mask says, so parsing it gives the same weekdays back.
pub proof fn law_day_mask_round_trips(m: DayMask)
    ensures
        is_day_list(m.letters()),
        forall|i: int| 0 <= i < 7 ==> #[trigger] day_char(m.letters()[i], i) == Some(m.on(i)),
{
    assert forall|i: int| 0 <= i < 7 implies #[trigger] day_char(m.letters()[i], i) == Some(
        m.on(i),
    ) by {
        assert(m.letters()[i] == if m.on(i) {
            day_letter(i)
        } else {
            '-'
        });
    }
}

/// Two masks over the seven weekdays that hold the same weekdays are equal.
pub proof fn law_day_mask_is_its_weekdays(a: DayMask, b: DayMask)
    requires
        a.0 < 128,
        b.0 < 128,
        forall|i: int| 0 <= i < 7 ==> #[trigger] a.on(i) == b.on(i),
    ensures
        a == b,
{
    assert(a.on(0) == b.on(0) && a.on(1) == b.on(1) && a.on(2) == b.on(2) && a.on(3) == b.on(3)
        && a.on(4) == b.on(4) && a.on(5) == b.on(5) && a.on(6) == b.on(6));
}

/// Local wall-clock position, as produced by the firmware from `localtime()`.
#[derive(Debug, Clone, Copy, PartialEq, Eq)]
pub struct LocalTime {
    pub weekday: Weekday,
    /// Minutes since local midnight, 0..1440.
    pub minute: u16,
    /// Identifies the local calendar day (any value that changes exactly at local midnight,
    /// e.g. `year * 366 + day_of_year`). Used for daily counters; 0 if unknown.
    pub day: u32,
}

impl LocalTime {
    /// A day key is derived from the weekday, so that consecutive weekdays count as different
    /// days.
    pub fn new(weekday: Weekday, hour: u16, min: u16) -> (r: LocalTime)
        requires
            hour * 60 + min <= u16::MAX,
        ensures
            r.weekday == weekday,
            r.minute == hour * 60 + min,
            r.day == weekday.position() + 1,
    {
        LocalTime { weekday, minute: hour * 60 + min, day: weekday.index() as u32 + 1 }
    }

    pub fn with_day(self, day: u32) -> (r: LocalTime)
        ensures
            r == (LocalTime { day, ..self }),
    {
        LocalTime { weekday: self.weekday, minute: self.minute, day }
    }
}

/// One on-interval: `[from, to)` in local minutes since midnight, on the days in `days`.
/// `to` may be 1440 (end of day). Blocks never cross midnight; use two blocks instead.
#[derive(Debug, Clone, Copy, PartialEq, Eq)]
pub struct Block {
    pub days: DayMask,
    pub from: u16,
    pub to: u16,
}

impl Block {
    /// A non-empty interval within one day.
    pub open spec fn valid(self) -> bool {
        self.from < self.to <= MINUTES_PER_DAY
    }

    /// The block is on at `t`.
    pub open spec fn covers(self, t: LocalTime) -> bool {
        self.days.on(t.weekday.position() as int) && self.from <= t.minute < self.to
    }

    /// What is said about a block that is not valid.
    pub open spec fn complaint(self) -> Seq<char> {
        if self.from >= self.to {
            "block from "@ + text::decimal(self.from as nat) + " must be before to "@
                + text::decimal(self.to as nat)
        } else {
            "block to "@ + text::decimal(self.to as nat) + " exceeds "@ + text::decimal(
                MINUTES_PER_DAY as nat,
            )
        }
    }

    pub fn validate(&self) -> (r: Result<(), String>)
        ensures
            match r {
                Ok(_) => self.valid(),
                Err(e) => !self.valid() && e@ == self.complaint(),
            },
    {
        if self.from >= self.to {
            let mut e = String::from_str("block from ");
            text::push_decimal(&mut e, self.from as u64);
            e.append(" must be before to ");
            text::push_decimal(&mut e, self.to as u64);
            return Err(e);
        }
        if self.to > MINUTES_PER_DAY {
            let mut e = String::from_str("block to ");
            text::push_decimal(&mut e, self.to as u64);
            e.append(" exceeds ");
            text::push_decimal(&mut e, MINUTES_PER_DAY as u64);
            return Err(e);
        }
        Ok(())
    }

    pub fn active(&self, t: LocalTime) -> (r: bool)
        ensures
            r == self.covers(t),
    {
        self.days.contains(t.weekday) && t.minute >= self.from && t.minute < self.to
    }
}

/// The whole weekly schedule as received from Home Assistant.
///
/// Wire format:
/// ```json
/// { "rev": 42, "tz": "WET0WEST,M3.5.0/1,M10.5.0",
///   "channels": { "1": [ {"days": "MTWTF--", "from": 360, "to": 420} ] } }
/// ```
/// Channel keys are 1-based in JSON; missing channels have no blocks.
#[derive(Debug, Clone, PartialEq, Eq)]
pub struct Schedule {
    pub rev: u32,
    /// POSIX TZ string applied on the device so DST is handled locally.
    pub tz: String,
    pub channels: [Vec<Block>; CHANNELS],
}

/// Published back to HA as an acknowledgement.
#[derive(Debug, Clone, PartialEq, Eq)]
pub struct ScheduleState {
    pub rev: u32,
    pub ok: bool,
    pub blocks: usize,
}

/// Number of blocks in the first `n` channels.
pub open spec fn blocks_below(channels: Seq<Vec<Block>>, n: nat) -> nat
    decreases n,
{
    if n == 0 {
        0
    } else {
        blocks_below(channels, (n - 1) as nat) + channels[n - 1]@.len()
    }
}

/// Some block in `blocks` is on at `t`.
pub open spec fn any_covers(blocks: Seq<Block>, t: LocalTime) -> bool {
    exists|j: int| 0 <= j < blocks.len() && (#[trigger] blocks[j]).covers(t)
}

/// Block `j` of channel `i` is the first one that is not valid, in channel order.
pub open spec fn first_invalid(channels: Seq<Vec<Block>>, i: int, j: int) -> bool {
    &&& 0 <= i < channels.len()
    &&& 0 <= j < channels[i]@.len()
    &&& !channels[i]@[j].valid()
    &&& forall|b: int| 0 <= b < j ==> (#[trigger] channels[i]@[b]).valid()
    &&& forall|a: int, b: int|
        0 <= a < i && 0 <= b < channels[a]@.len() ==> (#[trigger] channels[a]@[b]).valid()
}

proof fn lemma_blocks_grow(channels: Seq<Vec<Block>>, a: nat, b: nat)
    requires
        a <= b,
    ensures
        blocks_below(channels, a) <= blocks_below(channels, b),
    decreases b,
{
    if a < b {
        lemma_blocks_grow(channels, a, (b - 1) as nat);
    }
}

impl Default for Schedule {
    fn default() -> (r: Self)
        ensures
            r.rev == 0,
            r.tz@ == Seq::<char>::empty(),
            forall|i: int| 0 <= i < CHANNELS ==> (#[trigger] r.channels@[i])@.len() == 0,
    {
        Schedule {
            rev: 0,
            tz: String::new(),
            channels: [Vec::new(), Vec::new(), Vec::new(), Vec::new(), Vec::new(), Vec::new()],
        }
    }
}

impl Schedule {
    /// The schedule wants channel `ch` on at `t`.
    pub open spec fn wants(&self, ch: int, t: LocalTime) -> bool {
        any_covers(self.channels@[ch]@, t)
    }

    /// Every block is valid.
    pub open spec fn valid(&self) -> bool {
        forall|a: int, b: int|
            0 <= a < CHANNELS && 0 <= b < self.channels@[a]@.len()
                ==> (#[trigger] self.channels@[a]@[b]).valid()
    }

    /// Number of blocks in all channels.
    pub open spec fn blocks(&self) -> nat {
        blocks_below(self.channels@, CHANNELS as nat)
    }

    /// `e` is what is said about a schedule with an invalid block: the first one is named.
    pub open spec fn complaint(&self, e: Seq<char>) -> bool {
        exists|i: int, j: int| #[trigger]
            first_invalid(self.channels@, i, j) && e == "channel "@ + text::decimal((i + 1) as nat)
                + ": "@ + self.channels@[i]@[j].complaint()
    }

    pub fn validate(&self) -> (r: Result<(), String>)
        ensures
            match r {
                Ok(_) => self.valid(),
                Err(e) => !self.valid() && self.complaint(e@),
            },
    {
        let mut i: usize = 0;
        while i < CHANNELS
            invariant
                i <= CHANNELS,
                forall|a: int, b: int|
                    0 <= a < i && 0 <= b < self.channels@[a]@.len()
                        ==> (#[trigger] self.channels@[a]@[b]).valid(),
            decreases CHANNELS - i,
        {
            let blocks = &self.channels[i];
            let mut j: usize = 0;
            while j < blocks.len()
                invariant
                    i < CHANNELS,
                    blocks@ == self.channels@[i as int]@,
                    j <= blocks@.len(),
                    forall|a: int, b: int|
                        0 <= a < i && 0 <= b < self.channels@[a]@.len()
                            ==> (#[trigger] self.channels@[a]@[b]).valid(),
                    forall|b: int|
                        0 <= b < j ==> (#[trigger] self.channels@[i as int]@[b]).valid(),
                decreases blocks@.len() - j,
            {
                match blocks[j].validate() {
                    Ok(_) => {},
                    Err(e) => {
                        let mut out = String::from_str("channel ");
                        text::push_decimal(&mut out, i as u64 + 1);
                        out.append(": ");
                        out.append(e.as_str());
                        assert(first_invalid(self.channels@, i as int, j as int));
                        return Err(out);
                    },
                }
                j += 1;
            }
            i += 1;
        }
        Ok(())
    }

    pub fn block_count(&self) -> (r: usize)
        requires
            self.blocks() <= usize::MAX,
        ensures
            r == self.blocks(),
    {
        let mut n: usize = 0;
        let mut i: usize = 0;
        while i < CHANNELS
            invariant
                i <= CHANNELS,
                n == blocks_below(self.channels@, i as nat),
                self.blocks() <= usize::MAX,
            decreases CHANNELS - i,
        {
            proof {
                lemma_blocks_grow(self.channels@, (i + 1) as nat, CHANNELS as nat);
            }
            n += self.channels[i].len();
            i += 1;
        }
        n
    }

    /// Does the schedule want channel `ch` (0-based) on at local time `t`?
    pub fn wants_on(&self, ch: usize, t: LocalTime) -> (r: bool)
        requires
            ch < CHANNELS,
        ensures
            r == self.wants(ch as int, t),
    {
        let blocks = &self.channels[ch];
        let mut j: usize = 0;
        while j < blocks.len()
            invariant
                ch < CHANNELS,
                blocks@ == self.channels@[ch as int]@,
                j <= blocks@.len(),
                forall|b: int| 0 <= b < j ==> !(#[trigger] blocks@[b]).covers(t),
            decreases blocks@.len() - j,
        {
            if blocks[j].active(t) {
                assert(self.channels@[ch as int]@[j as int].covers(t));
                return true;
            }
            j += 1;
        }
        false
    }

    pub fn wanted(&self, t: LocalTime) -> (r: [bool; CHANNELS])
        ensures
            r@ == Seq::new(CHANNELS as nat, |ch: int| self.wants(ch, t)),
    {
        let mut out: [bool; CHANNELS] = [false;CHANNELS];
        let mut ch: usize = 0;
        while ch < CHANNELS
            invariant
                ch <= CHANNELS,
                forall|c: int| 0 <= c < ch ==> out@[c] == self.wants(c, t),
            decreases CHANNELS - ch,
        {
            out[ch] = self.wants_on(ch, t);
            ch += 1;
        }
        assert(out@ =~= Seq::new(CHANNELS as nat, |c: int| self.wants(c, t)));
        out
    }

    pub fn state(&self, ok: bool) -> (r: ScheduleState)
        requires
            self.blocks() <= usize::MAX,
        ensures
            r.rev == self.rev,
            r.ok == ok,
            r.blocks == self.blocks(),
    {
        ScheduleState { rev: self.rev, ok, blocks: self.block_count() }
    }
}

// ----- laws ------------------------------------------------------------------------------------------

/// The mask has the weekday: Monday is the lowest bit, Sunday the seventh.
pub open spec fn holds_day(mask: u8, day: Weekday) -> bool {
    match day {
        Weekday::Mon => mask % 2 == 1,
        Weekday::Tue => mask / 2 % 2 == 1,
        Weekday::Wed => mask / 4 % 2 == 1,
        Weekday::Thu => mask / 8 % 2 == 1,
        Weekday::Fri => mask / 16 % 2 == 1,
        Weekday::Sat => mask / 32 % 2 == 1,
        Weekday::Sun => mask / 64 % 2 == 1,
    }
}

/// A block is on from its first minute on, up to but not in the minute at which it ends, on its weekdays
/// and on no others. The calendar day does not matter.
pub proof fn law_a_block_is_on_from_its_start_to_its_end(b: Block, t: LocalTime)
    ensures
        b.covers(t) <==> holds_day(b.days.0, t.weekday) && b.from <= t.minute && t.minute < b.to,
{
}

/// A valid block is on for as many minutes of each of its days as lie between its start and its end: it
/// comes on at its start, and goes off at its end.
pub proof fn law_a_block_comes_on_and_goes_off(b: Block, day: Weekday, key: u32)
    requires
        b.valid(),
        holds_day(b.days.0, day),
    ensures
        b.covers(LocalTime { weekday: day, minute: b.from, day: key }),
        !b.covers(LocalTime { weekday: day, minute: b.to, day: key }),
        b.covers(LocalTime { weekday: day, minute: (b.to - 1) as u16, day: key }),
        b.from > 0 ==> !b.covers(
            LocalTime { weekday: day, minute: (b.from - 1) as u16, day: key },
        ),
{
    law_a_block_is_on_from_its_start_to_its_end(
        b,
        LocalTime { weekday: day, minute: b.from, day: key },
    );
}

/// The schedule wants a channel on exactly while one of the channel's own blocks is on.
pub proof fn law_a_channel_follows_its_own_blocks(s: Schedule, ch: int, t: LocalTime, j: int)
    requires
        0 <= ch < CHANNELS,
    ensures
        0 <= j < s.channels@[ch]@.len() && s.channels@[ch]@[j].from <= t.minute
            < s.channels@[ch]@[j].to && holds_day(s.channels@[ch]@[j].days.0, t.weekday)
            ==> s.wants(ch, t),
        s.wants(ch, t) ==> exists|i: int|
            0 <= i < s.channels@[ch]@.len() && (#[trigger] s.channels@[ch]@[i]).from <= t.minute
                < s.channels@[ch]@[i].to && holds_day(s.channels@[ch]@[i].days.0, t.weekday),
{
    if 0 <= j < s.channels@[ch]@.len() {
        law_a_block_is_on_from_its_start_to_its_end(s.channels@[ch]@[j], t);
        let b = s.channels@[ch]@[j];
        assert(b.covers(t) ==> s.wants(ch, t));
    }
    if s.wants(ch, t) {
        let blocks = s.channels@[ch]@;
        let i = choose|i: int| 0 <= i < blocks.len() && (#[trigger] blocks[i]).covers(t);
        law_a_block_is_on_from_its_start_to_its_end(blocks[i], t);
    }
}

/// A schedule has as many blocks as its channels have together.
pub proof fn law_blocks_are_counted_over_all_channels(s: Schedule)
    ensures
        s.blocks() == s.channels@[0]@.len() + s.channels@[1]@.len() + s.channels@[2]@.len()
            + s.channels@[3]@.len() + s.channels@[4]@.len() + s.channels@[5]@.len(),
{
    reveal_with_fuel(blocks_below, 7);
}

} // verus!
