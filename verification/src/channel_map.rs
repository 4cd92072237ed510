//! The schedule's channels as they travel in JSON: a map from the 1-based channel number, in
//! decimal, to that channel's blocks. Channels without blocks are left out.

use vstd::prelude::*;
use vstd::string::*;

use crate::board::CHANNELS;
use crate::schedule::Block;
use crate::text;

verus! {

/// The channel number that a key stands for, if it is a number at all.
pub open spec fn key_number(key: Seq<char>) -> Option<nat> {
    text::parsed_number(key, usize::MAX as nat)
}

/// A key that stands for one of the channels.
pub open spec fn is_channel_key(key: Seq<char>) -> bool {
    key_number(key) is Some && 1 <= key_number(key)->0 <= CHANNELS
}

/// What is said about a key that does not stand for a channel.
pub open spec fn key_complaint(key: Seq<char>) -> Seq<char> {
    match key_number(key) {
        None => "channel key "@ + text::quoted(key) + " is not a number"@,
        Some(n) => "channel "@ + text::decimal(n) + " out of range 1..="@ + text::decimal(
            CHANNELS as nat,
        ),
    }
}

/// The blocks that the first `n` entries of a map give channel `ch` (0-based): those of the
/// last entry for that channel.
pub open spec fn blocks_in(map: Seq<(String, Vec<Block>)>, n: nat, ch: int) -> Seq<Block>
    decreases n,
{
    if n == 0 {
        seq![]
    } else if key_number(map[n - 1].0@) == Some((ch + 1) as nat) {
        map[n - 1].1@
    } else {
        blocks_in(map, (n - 1) as nat, ch)
    }
}

/// Every key stands for a channel.
pub open spec fn all_channel_keys(map: Seq<(String, Vec<Block>)>) -> bool {
    forall|i: int| 0 <= i < map.len() ==> is_channel_key((#[trigger] map[i]).0@)
}

/// Entry `i` is the first whose key does not stand for a channel.
pub open spec fn first_bad_key(map: Seq<(String, Vec<Block>)>, i: int) -> bool {
    &&& 0 <= i < map.len()
    &&& !is_channel_key(map[i].0@)
    &&& forall|j: int| 0 <= j < i ==> is_channel_key((#[trigger] map[j]).0@)
}

/// The entries for the first `n` channels: one for each channel that has blocks.
pub open spec fn entries_below(channels: Seq<Vec<Block>>, n: nat) -> Seq<(Seq<char>, Seq<Block>)>
    decreases n,
{
    if n == 0 {
        seq![]
    } else if channels[n - 1]@.len() == 0 {
        entries_below(channels, (n - 1) as nat)
    } else {
        entries_below(channels, (n - 1) as nat).push((text::decimal(n), channels[n - 1]@))
    }
}

/// A map with its strings and lists seen as sequences.
pub open spec fn map_view(map: Seq<(String, Vec<Block>)>) -> Seq<(Seq<char>, Seq<Block>)> {
    Seq::new(map.len(), |i: int| (map[i].0@, map[i].1@))
}

fn copy_blocks(v: &Vec<Block>) -> (r: Vec<Block>)
    ensures
        r@ == v@,
{
    let mut out: Vec<Block> = Vec::new();
    let mut i: usize = 0;
    while i < v.len()
        invariant
            i <= v@.len(),
            out@ == v@.take(i as int),
        decreases v@.len() - i,
    {
        out.push(v[i]);
        i += 1;
    }
    assert(v@.take(v@.len() as int) =~= v@);
    out
}

/// The map of the channels that have blocks, in channel order.
pub fn serialize(channels: &[Vec<Block>; CHANNELS]) -> (r: Vec<(String, Vec<Block>)>)
    ensures
        map_view(r@) == entries_below(channels@, CHANNELS as nat),
{
    let mut out: Vec<(String, Vec<Block>)> = Vec::new();
    let mut i: usize = 0;
    assert(map_view(out@) =~= entries_below(channels@, 0));
    while i < CHANNELS
        invariant
            i <= CHANNELS,
            map_view(out@) == entries_below(channels@, i as nat),
        decreases CHANNELS - i,
    {
        let blocks = &channels[i];
        if blocks.len() > 0 {
            let mut key = String::new();
            text::push_decimal(&mut key, i as u64 + 1);
            let ghost before = out@;
            out.push((key, copy_blocks(blocks)));
            assert(map_view(out@) =~= map_view(before).push(
                (text::decimal((i + 1) as nat), blocks@),
            ));
        }
        i += 1;
    }
    out
}

/// The channels that a map describes. Keys are taken in the order given, and a later entry for
/// the same channel replaces an earlier one.
pub fn deserialize(map: Vec<(String, Vec<Block>)>) -> (r: Result<[Vec<Block>; CHANNELS], String>)
    ensures
        match r {
            Ok(channels) => all_channel_keys(map@) && forall|ch: int|
                0 <= ch < CHANNELS ==> (#[trigger] channels@[ch])@ == blocks_in(
                    map@,
                    map@.len(),
                    ch,
                ),
            Err(e) => exists|i: int| #[trigger]
                first_bad_key(map@, i) && e@ == key_complaint(map@[i].0@),
        },
{
    let mut out: [Vec<Block>; CHANNELS] = [
        Vec::new(),
        Vec::new(),
        Vec::new(),
        Vec::new(),
        Vec::new(),
        Vec::new(),
    ];
    let mut i: usize = 0;
    while i < map.len()
        invariant
            i <= map@.len(),
            forall|j: int| 0 <= j < i ==> is_channel_key((#[trigger] map@[j]).0@),
            forall|ch: int|
                0 <= ch < CHANNELS ==> (#[trigger] out@[ch])@ == blocks_in(map@, i as nat, ch),
        decreases map@.len() - i,
    {
        let entry = &map[i];
        let n: u64 = match text::parse_number(entry.0.as_str(), usize::MAX as u64) {
            Some(n) => n,
            None => {
                let mut e = String::from_str("channel key ");
                e.append(text::quote(entry.0.as_str()).as_str());
                e.append(" is not a number");
                assert(first_bad_key(map@, i as int));
                return Err(e);
            },
        };
        if n == 0 || n > CHANNELS as u64 {
            let mut e = String::from_str("channel ");
            text::push_decimal(&mut e, n);
            e.append(" out of range 1..=");
            text::push_decimal(&mut e, CHANNELS as u64);
            assert(first_bad_key(map@, i as int));
            return Err(e);
        }
        let ch: usize = n as usize - 1;
        out[ch] = copy_blocks(&entry.1);
        i += 1;
    }
    Ok(out)
}

proof fn lemma_small_decimals()
    ensures
        forall|n: nat| 1 <= n <= 6 ==> key_number(#[trigger] text::decimal(n)) == Some(n),
{
    assert forall|n: nat| 1 <= n <= 6 implies key_number(#[trigger] text::decimal(n)) == Some(n) by {
        let s = text::decimal(n);
        assert(s =~= seq![text::digit_char(n)]);
        assert(text::number_digits(s) == s);
        assert(s.drop_last() =~= Seq::<char>::empty());
        assert(text::digits_value(Seq::<char>::empty()) == 0);
        assert(text::digits_value(s) == text::digit_value(s[0]));
    }
}

proof fn lemma_entries_read_back(channels: Seq<Vec<Block>>, map: Seq<(String, Vec<Block>)>, n: nat)
    requires
        n <= CHANNELS,
        channels.len() == CHANNELS,
        map_view(map) == entries_below(channels, n),
    ensures
        all_channel_keys(map),
        forall|ch: int|
            0 <= ch < n ==> #[trigger] blocks_in(map, map.len(), ch) == channels[ch]@,
        forall|ch: int| n <= ch < CHANNELS ==> (#[trigger] blocks_in(map, map.len(), ch)).len() == 0,
    decreases n,
{
    lemma_small_decimals();
    if n == 0 {
        assert(map.len() == map_view(map).len());
    } else {
        let m = (n - 1) as nat;
        if channels[n - 1]@.len() == 0 {
            lemma_entries_read_back(channels, map, m);
        } else {
            let shorter = entries_below(channels, m);
            assert(map_view(map).len() == map.len());
            assert(map.len() == shorter.len() + 1);
            let front = map.drop_last();
            assert forall|i: int| 0 <= i < front.len() implies #[trigger] map_view(front)[i]
                == shorter[i] by {
                assert(map_view(front)[i] == map_view(map)[i]);
            }
            assert(map_view(front) =~= shorter);
            lemma_entries_read_back(channels, front, m);
            assert(map_view(map).last() == (map.last().0@, map.last().1@));
            assert(map.last().0@ == text::decimal(n));
            assert(key_number(map.last().0@) == Some(n));
            assert forall|ch: int| 0 <= ch < CHANNELS && ch != n - 1 implies #[trigger] blocks_in(
                map,
                map.len(),
                ch,
            ) == blocks_in(front, front.len(), ch) by {
                lemma_blocks_prefix(front, map, front.len(), ch);
            }
            assert forall|i: int| 0 <= i < map.len() implies is_channel_key(
                (#[trigger] map[i]).0@,
            ) by {
                if i < front.len() {
                    assert(map[i] == front[i]);
                }
            }
        }
    }
}

proof fn lemma_blocks_prefix(
    a: Seq<(String, Vec<Block>)>,
    b: Seq<(String, Vec<Block>)>,
    n: nat,
    ch: int,
)
    requires
        n <= a.len() <= b.len(),
        forall|i: int| 0 <= i < a.len() ==> a[i] == b[i],
    ensures
        blocks_in(a, n, ch) == blocks_in(b, n, ch),
    decreases n,
{
    if n > 0 {
        lemma_blocks_prefix(a, b, (n - 1) as nat, ch);
    }
}

/// Reading back a written map gives every channel the blocks it had: any map whose entries are
/// the ones that [`serialize`] writes is accepted by [`deserialize`] and describes the same
/// channels.
pub proof fn law_channel_map_round_trips(
    channels: Seq<Vec<Block>>,
    map: Seq<(String, Vec<Block>)>,
)
    requires
        channels.len() == CHANNELS,
        map_view(map) == entries_below(channels, CHANNELS as nat),
    ensures
        all_channel_keys(map),
        forall|ch: int|
            0 <= ch < CHANNELS ==> #[trigger] blocks_in(map, map.len(), ch) == channels[ch]@,
{
    lemma_entries_read_back(channels, map, CHANNELS as nat);
}

} // verus!
