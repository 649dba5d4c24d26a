//! The core of a small in-memory key-value server: the wire codec, the
//! store, and the executor that carries out requests on the store.
//!
//! - [`resp`]: the wire values, how they are written as bytes and read back;
//!   [`roundtrip`] and [`framing`] say what holds of writing and reading.
//! - [`storage`]: what a key can hold, and the store of all keys; [`lock`]:
//!   the store as all connections share it.
//! - [`commands`]: the commands, each for a store that the caller has to
//!   itself and for the shared store, and the executor that finds a command
//!   by its name.
//! - This module: one request from bytes to bytes.

use crate::commands::commands::{
    execute, handle_commands, handle_commands_in, not_a_command, store_activity,
};
use crate::commands::common::{error_reply, lock_failure, Store};
use crate::resp::{decode, encode, lemma_array_view, values_of, ProtocolError, RespType, Value};
use crate::storage::Keyspace;
use std::sync::Arc;
use std::sync::RwLock;
use vstd::prelude::*;

pub mod commands;
pub mod decimal;
pub mod framing;
pub mod lock;
pub mod resp;
pub mod roundtrip;
pub mod storage;
pub mod text;

verus! {

/// The reply to bytes that hold no value.
pub open spec fn undecodable() -> Value {
    Value::Error("ERR Could not deserialized command(s)"@)
}

/// The bytes that are written back for `stream`, and what the store holds
/// afterwards. A request is an array: the command's name and arguments.
pub open spec fn respond(store: Store, stream: Seq<u8>) -> (Seq<u8>, Store) {
    match decode(stream) {
        Err(_) => (encode(undecodable()), store),
        Ok((Value::Array(command), _)) => (
            encode(execute(store, command).0),
            execute(store, command).1,
        ),
        Ok(_) => (encode(not_a_command()), store),
    }
}

/// Whether `outcome` says of `stream` what decoding says: the bytes after
/// the first value, or why there is no first value.
pub open spec fn outcome_of(stream: Seq<u8>, outcome: Result<&[u8], ProtocolError>) -> bool {
    match outcome {
        Ok(rest) => decode(stream) matches Ok((_, after)) && after == rest@,
        Err(e) => decode(stream) == Err::<(Value, Seq<u8>), ProtocolError>(e),
    }
}

/// Serves one request on a store that the caller has to itself: decodes the
/// first value of `stream`, carries the request out and encodes the reply.
/// Gives the reply's bytes, and the bytes of `stream` after the request or
/// the reason why none could be decoded.
pub fn handle_command_stream_in<'a>(stream: &'a [u8], keyspace: &mut Keyspace) -> (result: (
    Vec<u8>,
    Result<&'a [u8], ProtocolError>,
))
    ensures
        (result.0@, final(keyspace)@) == respond(old(keyspace)@, stream@),
        outcome_of(stream@, result.1),
{
    let (resp, rest) = match RespType::deserialize(stream) {
        Ok(found) => found,
        Err(e) => {
            return (error_reply("ERR Could not deserialized command(s)").serialize(), Err(e));
        },
    };
    let response = if let RespType::Array(commands) = resp {
        proof {
            lemma_array_view(commands);
        }
        handle_commands_in(commands.as_slice(), keyspace)
    } else {
        error_reply("WRONGTYPE wrong type, expected command name as a Bulk strings")
    };
    (response.serialize(), Ok(rest))
}

/// Serves one request on the store that all connections share: decodes the
/// first value of `stream`, carries the request out and encodes the reply.
/// Gives the reply's bytes, and the bytes of `stream` after the request or
/// the reason why none could be decoded.
///
/// The reply is that of [`respond`] for the store as its lock gave it, or
/// the failure reply where the request needs the store and the lock could
/// not be had.
pub fn handle_command_stream<'a>(stream: &'a [u8], storage: Arc<RwLock<Keyspace>>) -> (result: (
    Vec<u8>,
    Result<&'a [u8], ProtocolError>,
))
    ensures
        outcome_of(stream@, result.1),
        match decode(stream@) {
            Ok((Value::Array(command), _)) => match store_activity(command) {
                None => forall|store: Store| result.0@ == #[trigger] respond(store, stream@).0,
                Some(activity) => result.0@ == encode(lock_failure(activity)) || exists|
                    store: Store,
                | result.0@ == #[trigger] respond(store, stream@).0,
            },
            _ => forall|store: Store| result.0@ == #[trigger] respond(store, stream@).0,
        },
{
    let (resp, rest) = match RespType::deserialize(stream) {
        Ok(found) => found,
        Err(e) => {
            return (error_reply("ERR Could not deserialized command(s)").serialize(), Err(e));
        },
    };
    let response = if let RespType::Array(commands) = resp {
        proof {
            lemma_array_view(commands);
        }
        let ghost command = values_of(commands@);
        let response = handle_commands(commands, storage);
        proof {
            if store_activity(command) is Some && response@ != lock_failure(
                store_activity(command)->Some_0,
            ) {
                let store = choose|store: Store| response@ == #[trigger] execute(store, command).0;
                assert(encode(response@) == respond(store, stream@).0);
            }
        }
        response
    } else {
        error_reply("WRONGTYPE wrong type, expected command name as a Bulk strings")
    };
    (response.serialize(), Ok(rest))
}

} // verus!
