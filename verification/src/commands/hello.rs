//! The `HELLO` command.

use crate::commands::common::{bulk_arg, bulk_at, error_reply};
use crate::resp::{lemma_array_view, values_of, RespType, Value};
use crate::text::text_eq;
use vstd::prelude::*;

verus! {

/// What the server says of itself: names and values in turn.
pub open spec fn server_identity() -> Seq<Value> {
    seq![
        Value::BulkString("server"@),
        Value::BulkString("rust-eez"@),
        Value::BulkString("version"@),
        Value::BulkString("0.1.0"@),
        Value::BulkString("version-name"@),
        Value::BulkString("hanabi"@),
        Value::BulkString("proto"@),
        Value::BulkString("2"@),
    ]
}

/// The reply to `HELLO`: an error where a protocol version other than `2`
/// is asked for, else what the server says of itself.
pub open spec fn hello_reply(args: Seq<Value>) -> Value {
    match bulk_at(args, 0) {
        Some(protover) => if protover == "2"@ {
            Value::Array(server_identity())
        } else {
            Value::Error("NOPROTO sorry, this protocol version is not supported."@)
        },
        None => Value::Array(server_identity()),
    }
}

/// Answers `HELLO`.
pub fn hello(args: &[RespType]) -> (reply: RespType)
    ensures
        reply@ == hello_reply(values_of(args@)),
{
    if let Some(protover) = bulk_arg(args, 0) {
        if !text_eq(protover.as_str(), "2") {
            return error_reply("NOPROTO sorry, this protocol version is not supported.");
        }
    }
    let mut identity: Vec<RespType> = Vec::new();
    identity.push(RespType::BulkString("server".to_owned()));
    identity.push(RespType::BulkString("rust-eez".to_owned()));
    identity.push(RespType::BulkString("version".to_owned()));
    identity.push(RespType::BulkString("0.1.0".to_owned()));
    identity.push(RespType::BulkString("version-name".to_owned()));
    identity.push(RespType::BulkString("hanabi".to_owned()));
    identity.push(RespType::BulkString("proto".to_owned()));
    identity.push(RespType::BulkString("2".to_owned()));
    proof {
        lemma_array_view(identity);
        assert(values_of(identity@) =~= server_identity());
    }
    RespType::Array(identity)
}

} // verus!
