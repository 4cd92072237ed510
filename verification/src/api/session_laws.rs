//! What holds of every conversation with a client.

use vstd::prelude::*;

use crate::api::codec::Coder;
use crate::api::entity;
use crate::api::error::Fault;
use crate::api::frame;
use crate::api::frame::{Front, Raw};
use crate::api::logs;
use crate::api::message::{ApiMessage, Value};
use crate::api::noise;
use crate::api::noise::{Got, Noise};
use crate::api::proto;
use crate::api::round_trip;
use crate::api::server::World;
use crate::api::session;
use crate::api::session::{Happening, Phase, Reply, Talk};
use crate::api::entity::Reading;
use crate::api::varint;

verus! {

// ----- the first and the last ------------------------------------------------------------------------

/// A client has to say hello first: any other message ends the conversation.
pub proof fn law_hello_comes_first(t: Talk, world: World, msg: Raw, now: u32)
    requires
        t.phase == Phase::AwaitHello,
        msg.id != proto::HelloRequest::id(),
    ensures
        t.handled(world, msg, now) == t.wrong(
            Fault::Frame("first message must be HelloRequest"@),
        ),
{
    reveal(Talk::handled);
}

/// A client that has not subscribed gets no state changes.
pub proof fn law_states_go_to_subscribers_only(t: Talk, world: World, key: u32, state: Reading)
    requires
        !t.subscribed,
    ensures
        session::update_message(t, world, key, state) is None,
{
}

/// A client gets the log lines up to the level that it last asked for, and no others.
pub proof fn law_log_lines_follow_the_subscription(
    t: Talk,
    world: World,
    req: proto::SubscribeLogsRequest,
    now: u32,
    level: i32,
)
    requires
        t.phase != Phase::AwaitHello,
    ensures
        ({
            let msg = entity::raw_of::<proto::SubscribeLogsRequest>(req.values());
            let u = t.handled(world, msg, now).talk;
            logs::passes(u.log_level, level) <==> 0 < req.level && level <= req.level
        }),
{
    reveal(Talk::handled);
    assert forall|i: int| 0 <= i < req.values().len() implies round_trip::storable(
        proto::SubscribeLogsRequest::part(),
        #[trigger] req.values()[i],
    ) by {}
    round_trip::law_messages_round_trip(&req);
    assert(req.values()[0] == Value::Int(req.level));
    let msg = entity::raw_of::<proto::SubscribeLogsRequest>(req.values());
    assert(session::payload_of::<proto::SubscribeLogsRequest>(msg) == Some(req.values()));
    assert(t.handled(world, msg, now) == t.log_subscribed(msg));
}

/// The event ends the conversation.
pub open spec fn ends(event: Happening) -> bool {
    event is Disconnect || event is Error
}

/// None of the events ends the conversation.
pub open spec fn none_ends(events: Seq<Happening>) -> bool {
    forall|i: int| 0 <= i < events.len() ==> !ends(#[trigger] events[i])
}

/// Only the last event may end the conversation.
pub open spec fn only_last_ends(events: Seq<Happening>) -> bool {
    forall|i: int| 0 <= i < events.len() - 1 ==> !ends(#[trigger] events[i])
}

/// A message never ends in an error event of its own, and in a disconnect only as its last event,
/// with the conversation closed.
spec fn calm(r: Reply) -> bool {
    none_ends(r.events) || (only_last_ends(r.events) && r.talk.phase == Phase::Closing
        && r.fault is None)
}

proof fn lemma_none_ends_concat(a: Seq<Happening>, b: Seq<Happening>)
    requires
        none_ends(a),
        none_ends(b),
    ensures
        none_ends(a + b),
{
    assert forall|i: int| 0 <= i < (a + b).len() implies !ends(#[trigger] (a + b)[i]) by {
        if i < a.len() {
            assert((a + b)[i] == a[i]);
        } else {
            assert((a + b)[i] == b[i - a.len()]);
        }
    }
}

proof fn lemma_only_last_concat(a: Seq<Happening>, b: Seq<Happening>)
    requires
        none_ends(a),
        only_last_ends(b),
    ensures
        only_last_ends(a + b),
{
    assert forall|i: int| 0 <= i < (a + b).len() - 1 implies !ends(#[trigger] (a + b)[i]) by {
        if i < a.len() {
            assert((a + b)[i] == a[i]);
        } else {
            assert((a + b)[i] == b[i - a.len()]);
        }
    }
}

proof fn lemma_sent_all_calm(t: Talk, msgs: Seq<Raw>, n: nat)
    ensures
        none_ends(t.sent_all(msgs, n).events),
        t.sent_all(msgs, n).talk.phase == t.phase,
    decreases n,
{
    if n > 0 {
        lemma_sent_all_calm(t, msgs, (n - 1) as nat);
        let before = t.sent_all(msgs, (n - 1) as nat);
        let one = before.talk.sent(msgs[n - 1]);
        lemma_none_ends_concat(before.events, one.events);
    }
}

proof fn lemma_handled_calm(t: Talk, world: World, msg: Raw, now: u32)
    ensures
        calm(t.handled(world, msg, now)),
{
    reveal(Talk::handled);
    if msg.id == proto::ListEntitiesRequest::id() && t.phase != Phase::AwaitHello {
        let msgs = session::listings(world);
        lemma_sent_all_calm(t, msgs, msgs.len());
        let list = t.sent_all(msgs, msgs.len());
        let done = list.talk.sent(session::bare(proto::ListEntitiesDoneResponse::id()));
        lemma_none_ends_concat(list.events, done.events);
    } else if msg.id == proto::SubscribeStatesRequest::id() && t.phase != Phase::AwaitHello {
        let msgs = session::reports(world, world.states.len());
        let u = Talk { subscribed: true, ..t };
        lemma_sent_all_calm(u, msgs, msgs.len());
        let states = u.sent_all(msgs, msgs.len());
        lemma_none_ends_concat(states.events, seq![Happening::Subscribed]);
        let known = states.and(states.talk.tell(Happening::Subscribed));
        let ask = known.talk.sent(session::bare(proto::GetTimeRequest::id()));
        lemma_none_ends_concat(known.events, ask.events);
    }
}

/// An error or a disconnect is always the last event.
pub proof fn law_the_end_comes_last(t: Talk, world: World, now: u32)
    ensures
        only_last_ends(t.ran(world, now).1),
    decreases t.buf.len(),
{
    let (coder, rest, got) = t.coder.decoded(t.buf);
    let shown = coder.pending().map_values(|f: Seq<u8>| Happening::Send(f));
    let next = Talk { coder: coder.flushed(), buf: rest, ..t };
    assert(none_ends(shown));
    if let Got::Message(m) = got {
        let h = next.handled(world, m, now);
        lemma_handled_calm(next, world, m, now);
        if none_ends(h.events) {
            lemma_none_ends_concat(shown, h.events);
            if h.fault is None && h.talk.phase != Phase::Closing && h.talk.buf.len()
                < t.buf.len() {
                law_the_end_comes_last(h.talk, world, now);
                lemma_only_last_concat(shown + h.events, h.talk.ran(world, now).1);
            }
        } else {
            lemma_only_last_concat(shown, h.events);
        }
    }
}

proof fn lemma_sent_all_frame(t: Talk, msgs: Seq<Raw>, n: nat)
    ensures
        t.sent_all(msgs, n).talk == (Talk { coder: t.sent_all(msgs, n).talk.coder, ..t }),
    decreases n,
{
    if n > 0 {
        lemma_sent_all_frame(t, msgs, (n - 1) as nat);
    }
}

/// Nothing takes a conversation back: once the client has said hello it stays connected or
/// closes, and once it has subscribed it stays subscribed.
#[verifier::rlimit(40)]
pub proof fn law_conversations_only_advance(t: Talk, world: World, msg: Raw, now: u32)
    ensures
        t.phase != Phase::AwaitHello ==> t.handled(world, msg, now).talk.phase
            != Phase::AwaitHello,
        t.phase == Phase::Closing ==> t.handled(world, msg, now).talk.phase == Phase::Closing,
        t.subscribed ==> t.handled(world, msg, now).talk.subscribed,
{
    reveal(Talk::handled);
    let msgs = session::listings(world);
    lemma_sent_all_frame(t, msgs, msgs.len());
    let states = session::reports(world, world.states.len());
    lemma_sent_all_frame(Talk { subscribed: true, ..t }, states, states.len());
}

// ----- pieces of a stream ------------------------------------------------------------------------------

proof fn lemma_stop_extends(b: Seq<u8>, d: Seq<u8>, from: nat)
    requires
        from <= b.len(),
        varint::stop(b, from) < b.len(),
    ensures
        varint::stop(b + d, from) == varint::stop(b, from),
    decreases b.len() - from,
{
    if from < b.len() && b[from as int] >= 128 {
        lemma_stop_extends(b, d, from + 1);
    }
}

proof fn lemma_groups_extend(b: Seq<u8>, d: Seq<u8>, n: nat)
    requires
        n <= b.len(),
    ensures
        varint::groups(b + d, n) == varint::groups(b, n),
    decreases n,
{
    if n > 0 {
        lemma_groups_extend(b, d, (n - 1) as nat);
    }
}

proof fn lemma_parsed_extends(b: Seq<u8>, d: Seq<u8>)
    requires
        varint::parsed(b) is Value,
    ensures
        varint::parsed(b + d) == varint::parsed(b),
{
    varint::lemma_stop_bounds(b, 0);
    lemma_stop_extends(b, d, 0);
    lemma_groups_extend(b, d, varint::stop(b, 0) + 1);
}

proof fn lemma_front_extends(b: Seq<u8>, d: Seq<u8>)
    requires
        frame::front(b) is Message,
    ensures
        frame::front(b + d) == frame::front(b),
{
    let all = b + d;
    assert(all.skip(1) =~= b.skip(1) + d);
    lemma_parsed_extends(b.skip(1), d);
    varint::lemma_parsed(b.skip(1));
    let n = varint::parsed(b.skip(1))->Value_1;
    assert(all.skip((1 + n) as int) =~= b.skip((1 + n) as int) + d);
    lemma_parsed_extends(b.skip((1 + n) as int), d);
    varint::lemma_parsed(b.skip((1 + n) as int));
    let m = varint::parsed(b.skip((1 + n) as int))->Value_1;
    let len = varint::parsed(b.skip(1))->Value_0;
    assert(all.subrange((1 + n + m) as int, (1 + n + m + len) as int) =~= b.subrange(
        (1 + n + m) as int,
        (1 + n + m + len) as int,
    ));
}

proof fn lemma_noise_extends(n: Noise, b: Seq<u8>, d: Seq<u8>)
    ensures
        ({
            let (next, rest, got) = n.decoded(b);
            &&& got is Message ==> n.decoded(b + d) == (next, rest + d, got)
            &&& got is More ==> n.decoded(b + d) == next.decoded(rest + d)
        }),
    decreases b.len(),
{
    let all = b + d;
    if !(n.phase is Failed) {
        if let noise::Cut::Payload(payload) = n.cut(b) {
            let k = (3 + payload.len()) as int;
            let rest = b.skip(k);
            assert(all.subrange(3, k) =~= b.subrange(3, k));
            assert(n.cut(all) == noise::Cut::Payload(payload));
            assert(all.skip(k) =~= rest + d);
            match n.phase {
                noise::Phase::ClientHello => {
                    lemma_noise_extends(n.greeted(payload), rest, d);
                },
                noise::Phase::Handshake { prologue } => {
                    lemma_noise_extends(n.shaken(prologue, payload).0, rest, d);
                },
                _ => {},
            }
        }
    }
}

/// Frames that wait to be sent wait in front of those that decoding adds.
spec fn behind(p: Seq<Seq<u8>>, n: Noise) -> Noise {
    Noise { pending: p + n.pending, ..n }
}

proof fn lemma_pending_waits(p: Seq<Seq<u8>>, n: Noise, b: Seq<u8>)
    ensures
        ({
            let (next, rest, got) = n.decoded(b);
            behind(p, n).decoded(b) == (behind(p, next), rest, got)
        }),
    decreases b.len(),
{
    let q = behind(p, n);
    assert(q.cut(b) == n.cut(b));
    if !(n.phase is Failed) {
        match n.cut(b) {
            noise::Cut::Part => {},
            noise::Cut::Bad(reason) => {
                assert(q.rejected(reason) =~= behind(p, n.rejected(reason)));
            },
            noise::Cut::Payload(payload) => {
                let rest = b.skip((3 + payload.len()) as int);
                match n.phase {
                    noise::Phase::ClientHello => {
                        assert(q.greeted(payload) =~= behind(p, n.greeted(payload)));
                        lemma_pending_waits(p, n.greeted(payload), rest);
                    },
                    noise::Phase::Handshake { prologue } => {
                        let (next, fault) = n.shaken(prologue, payload);
                        assert(q.shaken(prologue, payload).0 =~= behind(p, next));
                        assert(q.shaken(prologue, payload).1 == fault);
                        lemma_pending_waits(p, next, rest);
                    },
                    _ => {
                        let (next, got) = n.received(payload);
                        assert(q.received(payload).0 =~= behind(p, next));
                    },
                }
            },
        }
    }
}

/// More bytes behind the ones that are there change nothing in what is made of these.
spec fn extends(c: Coder, b: Seq<u8>, d: Seq<u8>) -> bool {
    let (next, rest, got) = c.decoded(b);
    &&& got is Message ==> c.decoded(b + d) == (next, rest + d, got)
    &&& got is More ==> {
        let (after, left, then) = next.flushed().decoded(rest + d);
        let (whole, left1, then1) = c.decoded(b + d);
        &&& left1 == left
        &&& then1 == then
        &&& whole.flushed() == after.flushed()
        &&& whole.pending() == next.pending() + after.pending()
    }
}

proof fn lemma_plaintext_decoded_extends(b: Seq<u8>, d: Seq<u8>)
    ensures
        extends(Coder::Plaintext, b, d),
{
    let c = Coder::Plaintext;
    if let Front::Message(m, n) = frame::front(b) {
        lemma_front_extends(b, d);
        frame::lemma_front(b);
        assert((b + d).skip(n as int) =~= b.skip(n as int) + d);
    }
    if frame::front(b) is Part {
        let after = c.decoded(b + d).0;
        assert(Seq::<Seq<u8>>::empty() + after.pending() =~= after.pending());
    }
}

proof fn lemma_noise_decoded_extends(n: Noise, b: Seq<u8>, d: Seq<u8>)
    ensures
        extends(Coder::Noise(n), b, d),
{
    lemma_noise_extends(n, b, d);
    let (next, rest, got) = n.decoded(b);
    let bare = Noise { pending: seq![], ..next };
    assert(behind(next.pending, bare) =~= next);
    lemma_pending_waits(next.pending, bare, rest + d);
    if got is More {
        let after = bare.decoded(rest + d).0;
        let whole = n.decoded(b + d).0;
        assert(whole == behind(next.pending, after));
        assert((Noise { pending: seq![], ..whole }) == (Noise { pending: seq![], ..after }));
    }
}

proof fn lemma_decoded_extends(c: Coder, b: Seq<u8>, d: Seq<u8>)
    ensures
        extends(c, b, d),
{
    match c {
        Coder::Plaintext => {
            lemma_plaintext_decoded_extends(b, d);
        },
        Coder::Noise(n) => {
            lemma_noise_decoded_extends(n, b, d);
        },
    }
}

proof fn lemma_sent_all_fed(t: Talk, msgs: Seq<Raw>, n: nat, d: Seq<u8>)
    ensures
        ({
            let r = t.sent_all(msgs, n);
            t.fed(d).sent_all(msgs, n) == Reply { talk: r.talk.fed(d), ..r }
        }),
    decreases n,
{
    if n > 0 {
        lemma_sent_all_fed(t, msgs, (n - 1) as nat, d);
    }
}

/// The reply with more bytes received.
spec fn fed(r: Reply, d: Seq<u8>) -> Reply {
    Reply { talk: r.talk.fed(d), ..r }
}

proof fn lemma_greeted_fed(t: Talk, world: World, msg: Raw, d: Seq<u8>)
    ensures
        t.fed(d).greeted(world, msg) == fed(t.greeted(world, msg), d),
{
}

proof fn lemma_commanded_fed(t: Talk, msg: Raw, d: Seq<u8>)
    ensures
        t.fed(d).commanded(msg) == fed(t.commanded(msg), d),
{
}

proof fn lemma_subscribe_fed(t: Talk, world: World, d: Seq<u8>)
    ensures
        t.fed(d).subscribe(world) == fed(t.subscribe(world), d),
{
    let states = session::reports(world, world.states.len());
    lemma_sent_all_fed(Talk { subscribed: true, ..t }, states, states.len(), d);
}

/// What is done about a message does not depend on what has been received behind it.
#[verifier::rlimit(40)]
#[verifier::spinoff_prover]
proof fn lemma_handled_fed(t: Talk, world: World, msg: Raw, now: u32, d: Seq<u8>)
    ensures
        t.fed(d).handled(world, msg, now) == fed(t.handled(world, msg, now), d),
{
    reveal(Talk::handled);
    if t.phase == Phase::AwaitHello {
        lemma_greeted_fed(t, world, msg, d);
    } else if msg.id == proto::ListEntitiesRequest::id() {
        let msgs = session::listings(world);
        lemma_sent_all_fed(t, msgs, msgs.len(), d);
    } else if msg.id == proto::SubscribeStatesRequest::id() {
        lemma_subscribe_fed(t, world, d);
    } else if session::is_command(msg.id) {
        lemma_commanded_fed(t, msg, d);
    }
}

proof fn lemma_noise_shrinks(n: Noise, b: Seq<u8>)
    ensures
        n.decoded(b).1.len() <= b.len(),
        n.decoded(b).2 is Message ==> n.decoded(b).1.len() < b.len(),
    decreases b.len(),
{
    if !(n.phase is Failed) {
        if let noise::Cut::Payload(payload) = n.cut(b) {
            let rest = b.skip((3 + payload.len()) as int);
            match n.phase {
                noise::Phase::ClientHello => {
                    lemma_noise_shrinks(n.greeted(payload), rest);
                },
                noise::Phase::Handshake { prologue } => {
                    lemma_noise_shrinks(n.shaken(prologue, payload).0, rest);
                },
                _ => {},
            }
        }
    }
}

proof fn lemma_decoded_shrinks(c: Coder, b: Seq<u8>)
    ensures
        c.decoded(b).1.len() <= b.len(),
        c.decoded(b).2 is Message ==> c.decoded(b).1.len() < b.len(),
{
    match c {
        Coder::Plaintext => {
            frame::lemma_front(b);
        },
        Coder::Noise(n) => {
            lemma_noise_shrinks(n, b);
        },
    }
}

/// Handling a message leaves the received bytes alone, and a conversation closes only with a
/// disconnect.
proof fn lemma_handled_buf(t: Talk, world: World, msg: Raw, now: u32)
    ensures
        t.handled(world, msg, now).talk.buf == t.buf,
        ({
            let h = t.handled(world, msg, now);
            t.phase != Phase::Closing && h.talk.phase == Phase::Closing && h.fault is None
                ==> h.events.len() > 0 && ends(h.events.last())
        }),
{
    reveal(Talk::handled);
    let msgs = session::listings(world);
    lemma_sent_all_frame(t, msgs, msgs.len());
    let states = session::reports(world, world.states.len());
    lemma_sent_all_frame(Talk { subscribed: true, ..t }, states, states.len());
}

/// Where the bytes run out before a message, what is made of them and more is what is made of
/// them, and then of more.
proof fn lemma_more_then(t: Talk, d: Seq<u8>, world: World, now: u32)
    requires
        t.coder.decoded(t.buf).2 is More,
    ensures
        ({
            let first = t.ran(world, now);
            let second = first.0.fed(d).ran(world, now);
            t.fed(d).ran(world, now) == (second.0, first.1 + second.1)
        }),
{
    let send = |f: Seq<u8>| Happening::Send(f);
    let (coder, rest, got) = t.coder.decoded(t.buf);
    let shown = coder.pending().map_values(send);
    let next = Talk { coder: coder.flushed(), buf: rest, ..t };
    lemma_decoded_extends(t.coder, t.buf, d);
    lemma_decoded_shrinks(t.coder, t.buf);
    let (whole, left, then) = t.coder.decoded(t.buf + d);
    let (after, left1, then1) = coder.flushed().decoded(rest + d);
    lemma_decoded_shrinks(coder.flushed(), rest + d);
    let shown2 = after.pending().map_values(send);
    assert(whole.pending().map_values(send) =~= shown + shown2);
    let last = Talk { coder: after.flushed(), buf: left, ..t };
    assert(last == (Talk { coder: whole.flushed(), buf: left, ..t.fed(d) }));
    assert(last == (Talk { coder: after.flushed(), buf: left1, ..next.fed(d) }));
    match then {
        Got::More => {},
        Got::Bad(f) => {
            assert((shown + shown2).push(Happening::Error(f)) =~= shown + shown2.push(
                Happening::Error(f),
            ));
        },
        Got::Message(m) => {
            let h = last.handled(world, m, now);
            lemma_handled_buf(last, world, m, now);
            match h.fault {
                Some(f) => {
                    assert((shown + shown2 + h.events).push(Happening::Error(f)) =~= shown + (
                    shown2 + h.events).push(Happening::Error(f)));
                },
                None => {
                    assert(shown + shown2 + h.events =~= shown + (shown2 + h.events));
                    if h.talk.phase != Phase::Closing {
                        let more = h.talk.ran(world, now);
                        assert(shown + shown2 + h.events + more.1 =~= shown + (shown2 + h.events
                            + more.1));
                    }
                },
            }
        },
    }
}

/// It does not matter in what pieces the bytes of a stream arrive: as long as the first piece
/// does not end the conversation, feeding the pieces one after the other leaves the same state
/// and gives the same events, in the same order, as feeding them at once.
pub proof fn law_pieces_do_not_matter(t: Talk, d: Seq<u8>, world: World, now: u32)
    requires
        t.phase != Phase::Closing,
        none_ends(t.ran(world, now).1),
    ensures
        ({
            let first = t.ran(world, now);
            let second = first.0.fed(d).ran(world, now);
            t.fed(d).ran(world, now) == (second.0, first.1 + second.1)
        }),
    decreases t.buf.len(),
{
    let (coder, rest, got) = t.coder.decoded(t.buf);
    let shown = coder.pending().map_values(|f: Seq<u8>| Happening::Send(f));
    let next = Talk { coder: coder.flushed(), buf: rest, ..t };
    let first = t.ran(world, now);
    lemma_decoded_extends(t.coder, t.buf, d);
    match got {
        Got::More => {
            lemma_more_then(t, d, world, now);
        },
        Got::Bad(f) => {
            let all = shown.push(Happening::Error(f));
            assert(ends(all[all.len() - 1]));
        },
        Got::Message(m) => {
            let h = next.handled(world, m, now);
            lemma_handled_fed(next, world, m, now, d);
            assert(next.fed(d) == (Talk { coder: coder.flushed(), buf: rest + d, ..t.fed(d) }));
            match h.fault {
                Some(f) => {
                    let all = (shown + h.events).push(Happening::Error(f));
                    assert(ends(all[all.len() - 1]));
                },
                None => {
                    lemma_decoded_shrinks(t.coder, t.buf);
                    lemma_handled_buf(next, world, m, now);
                    if h.talk.phase == Phase::Closing {
                        let all = shown + h.events;
                        assert(all.last() == h.events.last());
                        assert(ends(all[all.len() - 1]));
                    } else {
                        let more = h.talk.ran(world, now);
                        assert forall|i: int| 0 <= i < more.1.len() implies !ends(
                            #[trigger] more.1[i],
                        ) by {
                            assert(first.1[(shown + h.events).len() + i] == more.1[i]);
                        }
                        law_pieces_do_not_matter(h.talk, d, world, now);
                        let second = more.0.fed(d).ran(world, now);
                        assert(shown + h.events + (more.1 + second.1) =~= shown + h.events
                            + more.1 + second.1);
                    }
                },
            }
        },
    }
}

} // verus!
