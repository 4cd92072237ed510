//! Per-channel maximum on-time. A timer starts whenever a relay turns on, whoever turned it on;
//! when it expires the relay must be turned off. Time is fed in as monotonic milliseconds.

use vstd::prelude::*;

use crate::board::CHANNELS;

verus! {

/// Milliseconds from `since` to `now`, none if the clock reads earlier.
pub open spec fn elapsed(now: u64, since: u64) -> nat {
    if now >= since {
        (now - since) as nat
    } else {
        0
    }
}

/// A timer with limit `max_on_ms` (0 = none), running since `since`, has expired at `now`.
pub open spec fn timer_expired(max_on_ms: u64, since: Option<u64>, now: u64) -> bool {
    max_on_ms > 0 && since is Some && elapsed(now, since->0) >= max_on_ms
}

/// A limit that can be set: a number of minutes, in milliseconds.
pub open spec fn in_minutes(ms: u64) -> bool {
    ms % 60_000 == 0 && ms / 60_000 <= u16::MAX
}

/// The expired channels among the first `n`, in ascending order.
pub open spec fn expired_below(
    max_on_ms: Seq<u64>,
    on_since_ms: Seq<Option<u64>>,
    now: u64,
    n: nat,
) -> Seq<usize>
    decreases n,
{
    if n == 0 {
        seq![]
    } else {
        let rest = expired_below(max_on_ms, on_since_ms, now, (n - 1) as nat);
        if timer_expired(max_on_ms[n - 1], on_since_ms[n - 1], now) {
            rest.push((n - 1) as usize)
        } else {
            rest
        }
    }
}

#[derive(Debug)]
pub struct Safeguard {
    max_on_ms: [u64; CHANNELS],
    on_since_ms: [Option<u64>; CHANNELS],
}

impl Clone for Safeguard {
    fn clone(&self) -> (r: Self)
        ensures
            r.limits() == self.limits(),
            r.timers() == self.timers(),
    {
        proof {
            use_type_invariant(self);
        }
        Safeguard { max_on_ms: self.max_on_ms, on_since_ms: self.on_since_ms }
    }
}

impl Safeguard {
    /// The limit of each channel in milliseconds, 0 = none.
    pub closed spec fn limits(&self) -> Seq<u64> {
        self.max_on_ms@
    }

    /// When each channel's timer started, if it runs.
    pub closed spec fn timers(&self) -> Seq<Option<u64>> {
        self.on_since_ms@
    }

    /// Every limit is a whole number of minutes.
    #[verifier::type_invariant]
    spec fn whole_minutes(self) -> bool {
        forall|i: int| 0 <= i < CHANNELS ==> in_minutes(#[trigger] self.max_on_ms@[i])
    }

    /// There is one limit and one timer per channel.
    pub proof fn lemma_lengths(&self)
        ensures
            self.limits().len() == CHANNELS,
            self.timers().len() == CHANNELS,
    {
    }

    pub fn new(max_on_min: [u16; CHANNELS]) -> (r: Safeguard)
        ensures
            r.limits() == Seq::new(CHANNELS as nat, |i: int| (max_on_min[i] * 60_000) as u64),
            r.timers() == Seq::new(CHANNELS as nat, |i: int| None::<u64>),
    {
        let mut s = Safeguard { max_on_ms: [0;CHANNELS], on_since_ms: [None;CHANNELS] };
        assert(s.timers() =~= Seq::new(CHANNELS as nat, |i: int| None::<u64>));
        let mut ch: usize = 0;
        while ch < CHANNELS
            invariant
                ch <= CHANNELS,
                s.timers() == Seq::new(CHANNELS as nat, |i: int| None::<u64>),
                s.limits().len() == CHANNELS,
                forall|i: int| 0 <= i < ch ==> s.limits()[i] == (max_on_min[i] * 60_000) as u64,
            decreases CHANNELS - ch,
        {
            s.set_max_on_min(ch, max_on_min[ch]);
            ch += 1;
        }
        s
    }

    /// 0 disables the safeguard for that channel.
    pub fn set_max_on_min(&mut self, ch: usize, minutes: u16)
        requires
            ch < CHANNELS,
        ensures
            final(self).limits() == old(self).limits().update(
                ch as int,
                (minutes * 60_000) as u64,
            ),
            final(self).timers() == old(self).timers(),
    {
        proof {
            use_type_invariant(&*self);
        }
        let mut max_on_ms = self.max_on_ms;
        max_on_ms[ch] = minutes as u64 * 60_000;
        self.max_on_ms = max_on_ms;
    }

    pub fn max_on_min(&self, ch: usize) -> (r: u16)
        requires
            ch < CHANNELS,
        ensures
            r * 60_000 == self.limits()[ch as int],
    {
        proof {
            use_type_invariant(self);
            assert(in_minutes(self.max_on_ms@[ch as int]));
        }
        (self.max_on_ms[ch] / 60_000) as u16
    }

    /// Call whenever the physical relay state changes.
    pub fn relay_changed(&mut self, ch: usize, on: bool, now_ms: u64)
        requires
            ch < CHANNELS,
        ensures
            final(self).limits() == old(self).limits(),
            final(self).timers() == old(self).timers().update(
                ch as int,
                if on {
                    Some(now_ms)
                } else {
                    None
                },
            ),
    {
        proof {
            use_type_invariant(&*self);
        }
        let mut on_since_ms = self.on_since_ms;
        on_since_ms[ch] = if on {
            Some(now_ms)
        } else {
            None
        };
        self.on_since_ms = on_since_ms;
    }

    /// Milliseconds the channel has been on, if it is on.
    pub fn on_for_ms(&self, ch: usize, now_ms: u64) -> (r: Option<u64>)
        requires
            ch < CHANNELS,
        ensures
            match self.timers()[ch as int] {
                Some(t) => r is Some && r->0 == elapsed(now_ms, t),
                None => r is None,
            },
    {
        match self.on_since_ms[ch] {
            Some(t) => Some(now_ms.saturating_sub(t)),
            None => None,
        }
    }

    /// Channels whose timer has expired. The caller must turn them off and report
    /// the change back through [`Safeguard::relay_changed`].
    pub fn expired(&self, now_ms: u64) -> (r: Vec<usize>)
        ensures
            r@ == expired_below(self.limits(), self.timers(), now_ms, CHANNELS as nat),
    {
        let mut out: Vec<usize> = Vec::new();
        let mut ch: usize = 0;
        while ch < CHANNELS
            invariant
                ch <= CHANNELS,
                out@ == expired_below(self.limits(), self.timers(), now_ms, ch as nat),
            decreases CHANNELS - ch,
        {
            if self.max_on_ms[ch] > 0 {
                match self.on_for_ms(ch, now_ms) {
                    Some(t) => {
                        if t >= self.max_on_ms[ch] {
                            out.push(ch);
                        }
                    },
                    None => {},
                }
            }
            ch += 1;
        }
        out
    }
}

/// As long as nothing is switched and no limit changes, a channel that has expired stays so, and
/// more may join it.
pub proof fn law_expired_only_grows(
    max_on_ms: Seq<u64>,
    on_since_ms: Seq<Option<u64>>,
    now: u64,
    later: u64,
    ch: usize,
)
    requires
        now <= later,
        expired_below(max_on_ms, on_since_ms, now, CHANNELS as nat).contains(ch),
    ensures
        expired_below(max_on_ms, on_since_ms, later, CHANNELS as nat).contains(ch),
{
    law_expired_lists_exactly_the_tripped(max_on_ms, on_since_ms, now, CHANNELS as nat);
    law_expired_lists_exactly_the_tripped(max_on_ms, on_since_ms, later, CHANNELS as nat);
}

/// What [`Safeguard::expired`] lists: exactly the channels whose timer has run out, each once
/// and in ascending order.
pub proof fn law_expired_lists_exactly_the_tripped(
    max_on_ms: Seq<u64>,
    on_since_ms: Seq<Option<u64>>,
    now: u64,
    n: nat,
)
    requires
        n <= CHANNELS,
    ensures
        forall|c: usize| #[trigger]
            expired_below(max_on_ms, on_since_ms, now, n).contains(c) <==> (c < n && timer_expired(
                max_on_ms[c as int],
                on_since_ms[c as int],
                now,
            )),
        forall|i: int, j: int|
            0 <= i < j < expired_below(max_on_ms, on_since_ms, now, n).len()
                ==> #[trigger] expired_below(max_on_ms, on_since_ms, now, n)[i]
                < #[trigger] expired_below(max_on_ms, on_since_ms, now, n)[j],
    decreases n,
{
    if n > 0 {
        let m = (n - 1) as nat;
        law_expired_lists_exactly_the_tripped(max_on_ms, on_since_ms, now, m);
        let rest = expired_below(max_on_ms, on_since_ms, now, m);
        let all = expired_below(max_on_ms, on_since_ms, now, n);
        assert forall|i: int| 0 <= i < rest.len() implies #[trigger] rest[i] < m by {
            assert(rest.contains(rest[i]));
        }
        assert forall|c: usize| #[trigger] all.contains(c) <==> (c < n && timer_expired(
            max_on_ms[c as int],
            on_since_ms[c as int],
            now,
        )) by {
            if timer_expired(max_on_ms[n - 1], on_since_ms[n - 1], now) {
                assert(all == rest.push(m as usize));
                if rest.contains(c) {
                    let i = choose|i: int| 0 <= i < rest.len() && rest[i] == c;
                    assert(all[i] == c);
                }
                if c == m {
                    assert(all[rest.len() as int] == c);
                }
            }
        }
    } else {
        assert forall|c: usize| !(#[trigger] expired_below(max_on_ms, on_since_ms, now, 0).contains(
            c,
        )) by {}
    }
}

} // verus!
