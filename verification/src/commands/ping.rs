//! The `PING` command.

use crate::commands::common::{bulk_arg, bulk_at};
use crate::resp::{values_of, RespType, Value};
use vstd::prelude::*;

verus! {

/// The reply to `PING`: the message, if one is given as a bulk string, else
/// `PONG`.
pub open spec fn ping_reply(args: Seq<Value>) -> Value {
    match bulk_at(args, 0) {
        Some(message) => Value::BulkString(message),
        None => Value::SimpleString("PONG"@),
    }
}

/// Answers `PING`.
pub fn ping(args: &[RespType]) -> (reply: RespType)
    ensures
        reply@ == ping_reply(values_of(args@)),
{
    match bulk_arg(args, 0) {
        Some(message) => RespType::BulkString(message.clone()),
        None => RespType::String("PONG".to_owned()),
    }
}

} // verus!
