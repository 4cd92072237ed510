//! What Home Assistant is shown of everything but the relays.

use vstd::prelude::*;

use crate::api::entity::Reading;
use crate::api::server;
use crate::arbiter::{Action, Link};
use crate::board::CHANNELS;
use crate::firmware::entities;
use crate::firmware::key_table;
use crate::firmware::machine;
use crate::firmware::machine::{Deed, Machine};
use crate::firmware::number;

verus! {

// ----- one reading -----------------------------------------------------------------------------------

/// The two readings are the same; there is one zero only.
pub open spec fn same(a: Reading, b: Reading) -> bool {
    ||| a == b
    ||| a matches Reading::Float(x) && b matches Reading::Float(y) && (x == 0 || x == 0x8000_0000)
        && (y == 0 || y == 0x8000_0000)
}

/// Home Assistant is shown `r` under the key.
pub open spec fn reads(m: Machine, key: u32, r: Reading) -> bool {
    server::lookup(m.world.states, key) matches Some(s) && same(s, r)
}

/// The same, and the states are in order.
#[verifier::opaque]
pub open spec fn sees(m: Machine, key: u32, r: Reading) -> bool {
    server::ascending(m.world.states) && reads(m, key, r)
}

/// A whole number, as it is shown.
pub open spec fn amount(n: nat) -> Reading {
    Reading::Float(number::float_of(n) as u32)
}

/// What is set or published is shown.
pub proof fn lemma_sees_new(m: Machine, key: u32, r: Reading)
    requires
        server::ascending(m.world.states),
    ensures
        sees(m.sets(key, r), key, r),
        sees(m.publishes(key, r), key, r),
        server::ascending(m.sets(key, r).world.states),
{
    reveal(sees);
    reveal(Machine::sets);
    server::law_states_stay_in_order(m.world.states, key, r);
    server::law_recorded_states_are_found(m.world.states, key, r, key);
}

/// Setting another state leaves what is shown alone.
pub broadcast proof fn lemma_sees_sets(m: Machine, other: u32, x: Reading, key: u32, r: Reading)
    requires
        sees(m, key, r),
        key != other,
    ensures
        #[trigger] sees(m.sets(other, x), key, r),
{
    reveal(Machine::sets);
    lemma_sees_publishes(m, other, x, key, r);
}

/// So does publishing another.
pub broadcast proof fn lemma_sees_publishes(m: Machine, other: u32, x: Reading, key: u32, r: Reading)
    requires
        sees(m, key, r),
        key != other,
    ensures
        #[trigger] sees(m.publishes(other, x), key, r),
{
    reveal(sees);
    server::law_states_stay_in_order(m.world.states, other, x);
    server::law_recorded_states_are_found(m.world.states, other, x, key);
}

/// So does anything to be done.
pub broadcast proof fn lemma_sees_does(m: Machine, d: Deed, key: u32, r: Reading)
    ensures
        #[trigger] sees(m.does(d), key, r) == sees(m, key, r),
{
    reveal(sees);
}

// ----- what the controller reports -------------------------------------------------------------------

/// When a relay's on-time is told, the sensor for today shows today's minutes and the one for its
/// lifetime those of its lifetime; both are stored, and what is shown of other relays stays.
pub proof fn law_the_counters_are_shown(m: Machine, ch: usize, minutes: u32, total: u32, other: int)
    requires
        server::ascending(m.world.states),
        entities::keyed(m.keys),
        ch < CHANNELS,
        0 <= other < CHANNELS,
        other != ch,
    ensures
        ({
            let n = m.acts(Action::DailyUsage { ch, minutes, total_minutes: total });
            let k = m.keys;
            &&& reads(n, k.on_today@[ch as int], amount(minutes as nat))
            &&& reads(n, k.total_on@[ch as int], amount(total as nat))
            &&& n.deeds.len() > m.deeds.len() && n.deeds[m.deeds.len() as int] is SaveUsage
            &&& server::lookup(n.world.states, k.on_today@[other]) == server::lookup(
                m.world.states,
                k.on_today@[other],
            )
            &&& server::lookup(n.world.states, k.total_on@[other]) == server::lookup(
                m.world.states,
                k.total_on@[other],
            )
        }),
{
    broadcast use {machine::lemma_sets, lemma_sees_sets, lemma_sees_does};

    key_table::lemma_keys_in_place(m.keys);
    let c = ch as int;
    let k = m.keys;
    let s = m.does(Deed::SaveUsage);
    let (today, sum) = (amount(minutes as nat), amount(total as nat));
    let a = s.sets(k.on_today@[c], today);
    lemma_sees_new(s, k.on_today@[c], today);
    let b = a.sets(k.total_on@[c], sum);
    lemma_sees_new(a, k.total_on@[c], sum);
    let n = b.says_block(ch);
    assert(k.on_today@[c] != k.total_on@[c] && k.on_today@[c] != k.daily_limit@[c]
        && k.total_on@[c] != k.daily_limit@[c]);
    assert(sees(n, k.on_today@[c], today));
    assert(sees(n, k.total_on@[c], sum));
    reveal(sees);
    lemma_sets_others(s, k.on_today@[c], today, k.on_today@[other]);
    lemma_sets_others(s, k.on_today@[c], today, k.total_on@[other]);
    lemma_sets_others(a, k.total_on@[c], sum, k.on_today@[other]);
    lemma_sets_others(a, k.total_on@[c], sum, k.total_on@[other]);
    let blocked = Reading::Bool(b.ctl.capped[c]);
    lemma_sets_others(b, k.daily_limit@[c], blocked, k.on_today@[other]);
    lemma_sets_others(b, k.daily_limit@[c], blocked, k.total_on@[other]);
    reveal(Machine::sets);
}

/// Setting a state leaves what is shown under other keys alone.
proof fn lemma_sets_others(m: Machine, key: u32, r: Reading, other: u32)
    requires
        server::ascending(m.world.states),
        key != other,
    ensures
        server::lookup(m.sets(key, r).world.states, other) == server::lookup(m.world.states, other),
{
    reveal(Machine::sets);
    server::law_recorded_states_are_found(m.world.states, key, r, other);
}

/// When the link changes, its sensor shows the new one by its name.
pub proof fn law_the_link_is_shown(m: Machine, link: Link)
    requires
        server::ascending(m.world.states),
    ensures
        reads(
            m.acts(Action::LinkChanged(link)),
            m.keys.link,
            Reading::Text(
                match link {
                    Link::Online => "online"@,
                    Link::OfflineSchedule => "offline_schedule"@,
                    Link::OfflineUnknownTime => "offline_unknown_time"@,
                },
            ),
        ),
{
    lemma_sees_new(m, m.keys.link, Reading::Text(link.name()));
    reveal(sees);
}

/// When a rain hold has ended, no hours are shown and no end, and that is stored.
pub proof fn law_the_end_of_a_hold_is_shown(m: Machine)
    requires
        server::ascending(m.world.states),
        entities::keyed(m.keys),
    ensures
        ({
            let n = m.acts(Action::RainHoldEnded);
            &&& reads(n, m.keys.rain_hold_hours, Reading::Float(0))
            &&& reads(n, m.keys.rain_hold, Reading::Text("none"@))
            &&& n.deeds.len() > m.deeds.len() && n.deeds[m.deeds.len() as int] is SaveConfig
        }),
{
    broadcast use {machine::lemma_sets, lemma_sees_sets, lemma_sees_does};

    key_table::lemma_keys_in_place(m.keys);
    let k = m.keys;
    let s = m.does(Deed::SaveConfig);
    let a = s.sets(k.rain_hold_hours, Reading::Float(0));
    lemma_sees_new(s, k.rain_hold_hours, Reading::Float(0));
    lemma_sees_new(a, k.rain_hold, Reading::Text("none"@));
    assert(sees(a.sets(k.rain_hold, Reading::Text("none"@)), k.rain_hold_hours, Reading::Float(0)));
    reveal(sees);
    reveal(Machine::sets);
}

} // verus!
