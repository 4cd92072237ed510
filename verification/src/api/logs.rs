//! Log lines for clients that subscribed to the log.

use vstd::prelude::*;

use crate::api::frame::{Raw, RawMessage};
use crate::api::message;
use crate::api::message::{Slot, Value};
use crate::api::wire;
use crate::api::wire::Kind;

verus! {

/// The id of `SubscribeLogsResponse`, which carries a log line.
pub const LOG_LINE_ID: u32 = 29;

/// A client that subscribed to the log up to `subscribed` gets lines of this level. 0 stands for
/// no subscription.
pub open spec fn passes(subscribed: i32, level: i32) -> bool {
    0 < subscribed && level <= subscribed
}

/// A log line as a message: the level in field 1, the bytes of the line in field 3.
pub open spec fn log_raw(level: i32, line: Seq<u8>) -> Raw {
    Raw {
        id: LOG_LINE_ID,
        payload: message::flat_field(Slot { tag: 1, kind: Kind::Int }, Value::Int(level)) + (
        if line.len() == 0 {
            seq![]
        } else {
            wire::delimited(3, line)
        }),
    }
}

pub fn log_message(level: i32, line: &Vec<u8>) -> (r: RawMessage)
    ensures
        r@ == log_raw(level, line@),
{
    let mut payload: Vec<u8> = Vec::new();
    message::put_int(1, level, &mut payload);
    let ghost head = payload@;
    if line.len() > 0 {
        wire::put_bytes(3, line, &mut payload);
    }
    proof {
        let field = message::flat_field(Slot { tag: 1, kind: Kind::Int }, Value::Int(level));
        assert(head =~= field);
        assert(payload@ =~= log_raw(level, line@).payload);
    }
    RawMessage { id: LOG_LINE_ID, payload }
}

} // verus!
