//! Shared device state and what of it goes out to the live connections.

use vstd::prelude::*;

use crate::api::device::Device;
use crate::api::entity::{Reading, Registry, State};

verus! {

/// The last state of each entity, by key.
#[derive(Debug)]
pub struct StateTable {
    entries: Vec<(u32, State)>,
}

/// The keys are in ascending order, and none occurs twice.
pub open spec fn ascending(table: Seq<(u32, Reading)>) -> bool {
    forall|i: int, j: int|
        0 <= i < j < table.len() ==> (#[trigger] table[i]).0 < (#[trigger] table[j]).0
}

/// The state under a key.
pub open spec fn lookup(table: Seq<(u32, Reading)>, key: u32) -> Option<Reading>
    decreases table.len(),
{
    if table.len() == 0 {
        None
    } else if table[0].0 == key {
        Some(table[0].1)
    } else {
        lookup(table.skip(1), key)
    }
}

/// How many keys are below the given one: where it stands, or would stand.
pub open spec fn rank(table: Seq<(u32, Reading)>, key: u32) -> nat
    decreases table.len(),
{
    if table.len() == 0 || table[0].0 >= key {
        0
    } else {
        1 + rank(table.skip(1), key)
    }
}

/// The table with a state recorded.
pub open spec fn recorded(table: Seq<(u32, Reading)>, key: u32, state: Reading) -> Seq<
    (u32, Reading),
> {
    let at = rank(table, key) as int;
    if at < table.len() && table[at].0 == key {
        table.update(at, (key, state))
    } else {
        table.insert(at, (key, state))
    }
}

proof fn lemma_rank(table: Seq<(u32, Reading)>, key: u32)
    requires
        ascending(table),
    ensures
        rank(table, key) <= table.len(),
        forall|i: int| 0 <= i < rank(table, key) ==> (#[trigger] table[i]).0 < key,
        forall|i: int| rank(table, key) <= i < table.len() ==> (#[trigger] table[i]).0 >= key,
    decreases table.len(),
{
    if table.len() > 0 && table[0].0 < key {
        let tail = table.skip(1);
        assert forall|i: int, j: int| 0 <= i < j < tail.len() implies (#[trigger] tail[i]).0 < (
        #[trigger] tail[j]).0 by {
            assert(tail[i] == table[i + 1] && tail[j] == table[j + 1]);
        }
        lemma_rank(tail, key);
        assert forall|i: int| 0 <= i < rank(table, key) implies (#[trigger] table[i]).0 < key by {
            if i > 0 {
                assert(table[i] == tail[i - 1]);
            }
        }
        assert forall|i: int| rank(table, key) <= i < table.len() implies (#[trigger] table[i]).0
            >= key by {
            assert(table[i] == tail[i - 1]);
        }
    }
}

proof fn lemma_lookup(table: Seq<(u32, Reading)>, key: u32)
    requires
        ascending(table),
    ensures
        ({
            let at = rank(table, key) as int;
            lookup(table, key) == (if at < table.len() && table[at].0 == key {
                Some(table[at].1)
            } else {
                None
            })
        }),
    decreases table.len(),
{
    if table.len() > 0 {
        let tail = table.skip(1);
        assert forall|i: int, j: int| 0 <= i < j < tail.len() implies (#[trigger] tail[i]).0 < (
        #[trigger] tail[j]).0 by {
            assert(tail[i] == table[i + 1] && tail[j] == table[j + 1]);
        }
        lemma_lookup(tail, key);
        lemma_rank(table, key);
        lemma_rank(tail, key);
        if table[0].0 > key {
            assert forall|i: int| 0 <= i < tail.len() implies (#[trigger] tail[i]).0 > key by {
                assert(tail[i] == table[i + 1]);
                assert(table[0].0 < table[i + 1].0);
            }
            assert(rank(tail, key) == 0);
        }
    }
}

impl View for StateTable {
    type V = Seq<(u32, Reading)>;

    closed spec fn view(&self) -> Seq<(u32, Reading)> {
        self.entries@.map_values(|x: (u32, State)| (x.0, x.1@))
    }
}

/// Entries, as contracts speak of them.
pub open spec fn readings(v: Seq<(u32, State)>) -> Seq<(u32, Reading)> {
    v.map_values(|x: (u32, State)| (x.0, x.1@))
}

impl StateTable {
    pub fn new() -> (r: StateTable)
        ensures
            r@ == Seq::<(u32, Reading)>::empty(),
    {
        let r = StateTable { entries: Vec::new() };
        assert(r@ =~= seq![]);
        r
    }

    pub fn len(&self) -> (r: usize)
        ensures
            r == self@.len(),
    {
        self.entries.len()
    }

    /// All states, in the order of their keys.
    pub fn snapshot(&self) -> (r: Vec<(u32, State)>)
        ensures
            readings(r@) == self@,
    {
        let mut out: Vec<(u32, State)> = Vec::new();
        let mut i: usize = 0;
        while i < self.entries.len()
            invariant
                i <= self.entries@.len(),
                out@.len() == i,
                forall|j: int|
                    0 <= j < i ==> (#[trigger] out@[j]).0 == self.entries@[j].0 && out@[j].1@
                        == self.entries@[j].1@,
            decreases self.entries.len() - i,
        {
            out.push((self.entries[i].0, self.entries[i].1.copy()));
            i += 1;
        }
        assert(readings(out@) =~= self@);
        out
    }

    /// The state under a key.
    pub fn get(&self, key: u32) -> (r: Option<State>)
        ensures
            match lookup(self@, key) {
                Some(s) => r is Some && (r->0)@ == s,
                None => r is None,
            },
    {
        let mut i: usize = 0;
        assert(self@.skip(0) =~= self@);
        while i < self.entries.len()
            invariant
                i <= self.entries@.len(),
                lookup(self@, key) == lookup(self@.skip(i as int), key),
            decreases self.entries.len() - i,
        {
            assert(self@.skip(i as int).skip(1) =~= self@.skip(i + 1));
            if self.entries[i].0 == key {
                return Some(self.entries[i].1.copy());
            }
            i += 1;
        }
        None
    }

    /// Record the state under a key.
    pub fn put(&mut self, key: u32, state: State)
        ensures
            final(self)@ == recorded(old(self)@, key, state@),
    {
        let ghost t = self@;
        let mut i: usize = 0;
        assert(t.skip(0) =~= t);
        while i < self.entries.len() && self.entries[i].0 < key
            invariant
                i <= self.entries@.len(),
                t == self@,
                rank(t, key) == i + rank(t.skip(i as int), key),
            decreases self.entries.len() - i,
        {
            assert(t.skip(i as int).skip(1) =~= t.skip(i + 1));
            i += 1;
        }
        assert(rank(t, key) == i);
        if i < self.entries.len() && self.entries[i].0 == key {
            self.entries.set(i, (key, state));
            assert(self@ =~= t.update(i as int, (key, state@)));
        } else {
            self.entries.insert(i, (key, state));
            assert(self@ =~= t.insert(i as int, (key, state@)));
        }
    }
}

/// The ids of a request for the device's capabilities and of the answer to it.
#[derive(Debug, Clone, Copy, PartialEq, Eq)]
pub struct Capabilities {
    pub request: u32,
    pub response: u32,
}

/// Read-mostly data every session needs.
#[derive(Debug)]
pub struct Shared {
    pub device: Device,
    pub registry: Registry,
    pub server_info: String,
    /// The capabilities request is answered if its ids are given.
    pub capabilities: Option<Capabilities>,
    pub states: StateTable,
}

/// [`Shared`], as contracts speak of it.
pub struct World {
    pub device: Device,
    pub entities: Seq<crate::api::entity::Entity>,
    pub server_info: Seq<char>,
    pub capabilities: Option<Capabilities>,
    pub states: Seq<(u32, Reading)>,
}

impl View for Shared {
    type V = World;

    open spec fn view(&self) -> World {
        World {
            device: self.device,
            entities: self.registry@,
            server_info: self.server_info@,
            capabilities: self.capabilities,
            states: self.states@,
        }
    }
}

impl Shared {
    pub fn snapshot(&self) -> (r: Vec<(u32, State)>)
        ensures
            readings(r@) == self@.states,
    {
        self.states.snapshot()
    }

    pub fn state(&self, key: u32) -> (r: Option<State>)
        ensures
            match lookup(self@.states, key) {
                Some(s) => r is Some && (r->0)@ == s,
                None => r is None,
            },
    {
        self.states.get(key)
    }
}

/// Message from the server to a connection task.
#[derive(Debug)]
pub enum Outbound {
    State(u32, State),
    /// A log line (proto `LogLevel`, formatted bytes) for clients that subscribed to logs.
    Log(i32, Vec<u8>),
    Close,
}

/// An [`Outbound`], as contracts speak of it.
pub enum Message {
    State(u32, Reading),
    Log(i32, Seq<u8>),
    Close,
}

impl View for Outbound {
    type V = Message;

    open spec fn view(&self) -> Message {
        match self {
            Outbound::State(key, s) => Message::State(*key, s@),
            Outbound::Log(level, line) => Message::Log(*level, line@),
            Outbound::Close => Message::Close,
        }
    }
}

/// Application-facing state of the server. The connections are the application's: what a method
/// returns goes to each of them.
#[derive(Debug)]
pub struct Server {
    shared: Shared,
}

impl View for Server {
    type V = World;

    closed spec fn view(&self) -> World {
        self.shared@
    }
}

impl Server {
    pub fn new(device: Device, registry: Registry, server_info: &str) -> (r: Server)
        ensures
            r@ == (World {
                device,
                entities: registry@,
                server_info: server_info@,
                capabilities: None,
                states: seq![],
            }),
    {
        Server {
            shared: Shared {
                device,
                registry,
                server_info: server_info.to_owned(),
                capabilities: None,
                states: StateTable::new(),
            },
        }
    }

    /// Answer the request for the device's capabilities, whose ids are these.
    pub fn with_capabilities(self, capabilities: Capabilities) -> (r: Server)
        ensures
            r@ == (World { capabilities: Some(capabilities), ..self@ }),
    {
        let s = self.shared;
        Server {
            shared: Shared {
                device: s.device,
                registry: s.registry,
                server_info: s.server_info,
                capabilities: Some(capabilities),
                states: s.states,
            },
        }
    }

    pub fn shared(&self) -> (r: &Shared)
        ensures
            r@ == self@,
    {
        &self.shared
    }

    pub fn registry(&self) -> (r: &Registry)
        ensures
            r@ == self@.entities,
    {
        &self.shared.registry
    }

    pub fn device(&self) -> (r: &Device)
        ensures
            *r == self@.device,
    {
        &self.shared.device
    }

    /// Record a state. If it is new, it goes to every subscribed client.
    pub fn set_state(&mut self, key: u32, state: State) -> (r: Option<Outbound>)
        ensures
            lookup(old(self)@.states, key) matches Some(s) && s.equals(state@) ==> r is None
                && final(self)@ == old(self)@,
            !(lookup(old(self)@.states, key) matches Some(s) && s.equals(state@)) ==> {
                &&& r is Some
                &&& (r->0)@ == Message::State(key, state@)
                &&& final(self)@ == (World {
                    states: recorded(old(self)@.states, key, state@),
                    ..old(self)@
                })
            },
    {
        if let Some(s) = self.shared.states.get(key) {
            if s.equals(&state) {
                return None;
            }
        }
        self.shared.states.put(key, state.copy());
        Some(Outbound::State(key, state))
    }

    /// Like `set_state` but always pushes, even if unchanged (for sensors that re-report).
    pub fn publish_state(&mut self, key: u32, state: State) -> (r: Outbound)
        ensures
            r@ == Message::State(key, state@),
            final(self)@ == (World {
                states: recorded(old(self)@.states, key, state@),
                ..old(self)@
            }),
    {
        self.shared.states.put(key, state.copy());
        Outbound::State(key, state)
    }

    pub fn state(&self, key: u32) -> (r: Option<State>)
        ensures
            match lookup(self@.states, key) {
                Some(s) => r is Some && (r->0)@ == s,
                None => r is None,
            },
    {
        self.shared.state(key)
    }

    /// What a log line sends to every connection; each session filters by its subscribed level.
    /// Nothing when nothing is connected.
    pub fn log(&self, connections: usize, level: i32, line: Vec<u8>) -> (r: Option<Outbound>)
        ensures
            match r {
                Some(o) => connections > 0 && o@ == Message::Log(level, line@),
                None => connections == 0,
            },
    {
        if connections == 0 {
            None
        } else {
            Some(Outbound::Log(level, line))
        }
    }

    /// A message that every connection ignores: sending it shows which connections are gone.
    pub fn probe(&self) -> (r: Outbound)
        ensures
            r@ == Message::State(u32::MAX, Reading::Bool(false)),
    {
        Outbound::State(u32::MAX, State::Bool(false))
    }

    /// What ends every connection.
    pub fn close_all(&self) -> (r: Outbound)
        ensures
            r@ == Message::Close,
    {
        Outbound::Close
    }
}

// ----- laws ----------------------------------------------------------------------------------------

/// The states stay in the order of their keys, each key once.
pub proof fn law_states_stay_in_order(table: Seq<(u32, Reading)>, key: u32, state: Reading)
    requires
        ascending(table),
    ensures
        ascending(recorded(table, key, state)),
{
    lemma_rank(table, key);
}

/// A recorded state is found under its key, and the others are found as before.
pub proof fn law_recorded_states_are_found(
    table: Seq<(u32, Reading)>,
    key: u32,
    state: Reading,
    other: u32,
)
    requires
        ascending(table),
    ensures
        lookup(recorded(table, key, state), key) == Some(state),
        other != key ==> lookup(recorded(table, key, state), other) == lookup(table, other),
{
    let next = recorded(table, key, state);
    law_states_stay_in_order(table, key, state);
    lemma_rank(table, key);
    lemma_rank(next, key);
    lemma_lookup(next, key);
    let at = rank(table, key) as int;
    assert(next[at] == (key, state));
    assert(rank(next, key) == at) by {
        let k = rank(next, key) as int;
        if k < at {
            assert(next[k].0 == table[k].0);
        }
        if k > at {
            assert(next[at].0 < key);
        }
    }
    if other != key {
        lemma_lookup(next, other);
        lemma_lookup(table, other);
        lemma_rank(table, other);
        lemma_rank(next, other);
        let (p, q) = (rank(table, other) as int, rank(next, other) as int);
        if lookup(table, other) is Some {
            let j = if next.len() == table.len() || p < at {
                p
            } else {
                p + 1
            };
            assert(next[j] == table[p]);
            assert(q == j) by {
                if q < j {
                    assert(next[q].0 < next[j].0);
                }
                if q > j {
                    assert(next[j].0 < other);
                }
            }
        } else if q < next.len() && next[q].0 == other {
            let j = if next.len() == table.len() || q < at {
                q
            } else {
                q - 1
            };
            assert(table[j] == next[q]);
            assert(j == p) by {
                if j < p {
                    assert(table[j].0 < other);
                }
                if j > p {
                    assert(table[p].0 < table[j].0);
                }
            }
        }
    }
}

/// Setting a state that is already set sends nothing and changes nothing; publishing it sends it
/// again. (A float that stands for no number is never already set.)
pub proof fn law_unchanged_states_are_not_sent_again(state: Reading)
    requires
        !(state matches Reading::Float(f) && crate::api::entity::is_nan(f)),
    ensures
        state.equals(state),
{
}

} // verus!
