//! What the commands share: how arguments are read and how the common
//! replies are made.

use crate::resp::{values_of, RespType, Value};
use crate::storage::Entry;
use vstd::prelude::*;
use vstd::string::StringExecFns;

verus! {

/// The mathematical content of the store: what each key holds.
pub type Store = Map<Seq<char>, Entry>;

/// The text of the argument at `index`, if there is one and it is a bulk
/// string.
pub open spec fn bulk_at(args: Seq<Value>, index: int) -> Option<Seq<char>> {
    if 0 <= index < args.len() && args[index] is BulkString {
        Some(args[index]->BulkString_0)
    } else {
        None
    }
}

/// The reply that carries a count: the count as an integer, the largest
/// integer where the count is beyond it.
pub open spec fn count_reply(count: nat) -> Value {
    if count <= i64::MAX {
        Value::Integer(count as i64)
    } else {
        Value::Integer(i64::MAX)
    }
}

/// The reply of a command that could not get hold of the store, because an
/// earlier holder of its lock failed; `activity` says what the command was
/// about to do.
pub open spec fn lock_failure(activity: Seq<char>) -> Value {
    Value::Error("ERR system error while "@ + activity + " data"@)
}

/// The reply to an operation on a hash where the key holds a string.
pub open spec fn not_a_hash() -> Value {
    Value::Error("WRONGTYPE operation against a key holding non-hashmap"@)
}

/// The text of the argument at `index`, if there is one and it is a bulk
/// string.
pub fn bulk_arg(args: &[RespType], index: usize) -> (text: Option<&String>)
    ensures
        match text {
            Some(found) => bulk_at(values_of(args@), index as int) == Some(found@),
            None => bulk_at(values_of(args@), index as int) is None,
        },
{
    if index < args.len() {
        match &args[index] {
            RespType::BulkString(text) => Some(text),
            _ => None,
        }
    } else {
        None
    }
}

/// An error reply with the given message.
pub fn error_reply(message: &str) -> (reply: RespType)
    ensures
        reply@ == Value::Error(message@),
{
    RespType::Error(message.to_owned())
}

/// The reply that carries `count`.
pub fn count_to_reply(count: usize) -> (reply: RespType)
    ensures
        reply@ == count_reply(count as nat),
{
    if count as u64 <= 0x7fff_ffff_ffff_ffff {
        RespType::Integer(count as i64)
    } else {
        RespType::Integer(i64::MAX)
    }
}

/// The reply of a command that could not get hold of the store.
pub fn lock_failure_reply(activity: &str) -> (reply: RespType)
    ensures
        reply@ == lock_failure(activity@),
{
    let mut message = "ERR system error while ".to_owned();
    message.append(activity);
    message.append(" data");
    RespType::Error(message)
}

/// The reply to an operation on a hash where the key holds a string.
pub fn not_a_hash_reply() -> (reply: RespType)
    ensures
        reply@ == not_a_hash(),
{
    error_reply("WRONGTYPE operation against a key holding non-hashmap")
}

} // verus!
