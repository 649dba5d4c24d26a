//! The executor: finds the command that a request names and carries it out.

use crate::commands::common::{bulk_arg, bulk_at, error_reply, lock_failure, Store};
use crate::commands::hello::{hello, hello_reply};
use crate::commands::ping::{ping, ping_reply};
use crate::commands::set_op;
use crate::commands::set_op::{
    hdel_args, hdel_step, hget_args, hget_reply, hgetall_args, hgetall_reply, hset_args,
    hset_step,
};
use crate::commands::string_op;
use crate::commands::string_op::{del_step, get_args, get_reply, set_args, set_step};
use crate::resp::{values_of, RespType, Value};
use crate::storage::{Entry, Keyspace};
use crate::text::text_eq;
use std::sync::Arc;
use std::sync::RwLock;
use vstd::prelude::*;
use vstd::slice::slice_subrange;
use vstd::string::StringExecFns;

verus! {

/// The reply to a request that does not start with a bulk string.
pub open spec fn not_a_command() -> Value {
    Value::Error("WRONGTYPE wrong type, expected command name as a Bulk strings"@)
}

/// The reply to a request for a command that the server does not have.
pub open spec fn unknown_command(name: Seq<char>) -> Value {
    Value::Error("ERR unknown command '"@ + name + "'"@)
}

/// What a request is replied and what the store holds after it. The first
/// value of the request names the command, in upper case; the others are
/// the command's arguments.
pub open spec fn execute(store: Store, command: Seq<Value>) -> (Value, Store) {
    match bulk_at(command, 0) {
        None => (not_a_command(), store),
        Some(name) => {
            let args = command.skip(1);
            if name == "PING"@ {
                (ping_reply(args), store)
            } else if name == "HELLO"@ {
                (hello_reply(args), store)
            } else if name == "SET"@ {
                set_step(store, args)
            } else if name == "GET"@ {
                (get_reply(store, args), store)
            } else if name == "DEL"@ {
                del_step(store, args)
            } else if name == "HSET"@ {
                hset_step(store, args)
            } else if name == "HGET"@ {
                (hget_reply(store, args), store)
            } else if name == "HGETALL"@ {
                (hgetall_reply(store, args), store)
            } else if name == "HDEL"@ {
                hdel_step(store, args)
            } else {
                (unknown_command(name), store)
            }
        },
    }
}

/// What a request is about to do with the store, where it needs the store
/// at all: it does where it names a command on keys and gives it the
/// arguments that the command asks for.
pub open spec fn store_activity(command: Seq<Value>) -> Option<Seq<char>> {
    match bulk_at(command, 0) {
        None => None,
        Some(name) => {
            let args = command.skip(1);
            if name == "PING"@ || name == "HELLO"@ {
                None
            } else if name == "SET"@ {
                if set_args(args) is Ok {
                    Some("inserting"@)
                } else {
                    None
                }
            } else if name == "GET"@ {
                if get_args(args) is Ok {
                    Some("getting"@)
                } else {
                    None
                }
            } else if name == "DEL"@ {
                if args.len() >= 1 {
                    Some("deleting"@)
                } else {
                    None
                }
            } else if name == "HSET"@ {
                if hset_args(args) is Ok {
                    Some("inserting"@)
                } else {
                    None
                }
            } else if name == "HGET"@ {
                if hget_args(args) is Ok {
                    Some("getting"@)
                } else {
                    None
                }
            } else if name == "HGETALL"@ {
                if hgetall_args(args) is Ok {
                    Some("getting"@)
                } else {
                    None
                }
            } else if name == "HDEL"@ {
                if hdel_args(args) is Ok {
                    Some("inserting"@)
                } else {
                    None
                }
            } else {
                None
            }
        },
    }
}

/// The reply to a request for a command that the server does not have.
fn unknown_command_reply(name: &str) -> (reply: RespType)
    ensures
        reply@ == unknown_command(name@),
{
    let mut message = "ERR unknown command '".to_owned();
    message.append(name);
    message.append("'");
    RespType::Error(message)
}

/// Carries out a request on a store that the caller has to itself.
pub fn handle_commands_in(command_arr: &[RespType], keyspace: &mut Keyspace) -> (reply: RespType)
    ensures
        (reply@, final(keyspace)@) == execute(old(keyspace)@, values_of(command_arr@)),
{
    let command_name = match bulk_arg(command_arr, 0) {
        Some(command_name) => command_name.as_str(),
        None => return error_reply(
            "WRONGTYPE wrong type, expected command name as a Bulk strings",
        ),
    };
    let command_args = slice_subrange(command_arr, 1, command_arr.len());
    assert(values_of(command_args@) =~= values_of(command_arr@).skip(1));
    if text_eq(command_name, "PING") {
        ping(command_args)
    } else if text_eq(command_name, "HELLO") {
        hello(command_args)
    } else if text_eq(command_name, "SET") {
        string_op::set_in(command_args, keyspace)
    } else if text_eq(command_name, "GET") {
        string_op::get_in(command_args, keyspace)
    } else if text_eq(command_name, "DEL") {
        string_op::del_in(command_args, keyspace)
    } else if text_eq(command_name, "HSET") {
        set_op::hset_in(command_args, keyspace)
    } else if text_eq(command_name, "HGET") {
        set_op::hget_in(command_args, keyspace)
    } else if text_eq(command_name, "HGETALL") {
        set_op::hgetall_in(command_args, keyspace)
    } else if text_eq(command_name, "HDEL") {
        set_op::hdel_in(command_args, keyspace)
    } else {
        unknown_command_reply(command_name)
    }
}

/// Carries out a request on the store that all connections share.
///
/// A request that does not need the store is answered as [`execute`] says,
/// whatever the store holds. One that needs it locks it, for reading or for
/// writing as the command asks; the reply is then what [`execute`] says for
/// the store as the lock gave it, or the failure reply where the lock could
/// not be had.
pub fn handle_commands(command_arr: Vec<RespType>, storage: Arc<RwLock<Keyspace>>) -> (reply:
    RespType)
    ensures
        match store_activity(values_of(command_arr@)) {
            None => forall|store: Store|
                reply@ == #[trigger] execute(store, values_of(command_arr@)).0,
            Some(activity) => reply@ == lock_failure(activity) || exists|store: Store|
                reply@ == #[trigger] execute(store, values_of(command_arr@)).0,
        },
{
    let command_name = match bulk_arg(command_arr.as_slice(), 0) {
        Some(command_name) => command_name.as_str(),
        None => return error_reply(
            "WRONGTYPE wrong type, expected command name as a Bulk strings",
        ),
    };
    let command_args = slice_subrange(command_arr.as_slice(), 1, command_arr.len());
    let ghost command = values_of(command_arr@);
    let ghost args = values_of(command_args@);
    assert(args =~= command.skip(1));
    if text_eq(command_name, "PING") {
        ping(command_args)
    } else if text_eq(command_name, "HELLO") {
        hello(command_args)
    } else if text_eq(command_name, "SET") {
        let reply = string_op::set(command_args, storage);
        proof {
            let store = Map::<Seq<char>, Entry>::empty();
            assert(set_args(args) is Ok && reply@ != lock_failure("inserting"@) ==> reply@
                == execute(store, command).0);
        }
        reply
    } else if text_eq(command_name, "GET") {
        let reply = string_op::get(command_args, storage);
        proof {
            if get_args(args) is Ok && reply@ != lock_failure("getting"@) {
                let store = choose|store: Store| reply@ == #[trigger] get_reply(store, args);
                assert(reply@ == execute(store, command).0);
            }
        }
        reply
    } else if text_eq(command_name, "DEL") {
        let reply = string_op::del(command_args, storage);
        proof {
            if args.len() >= 1 && reply@ != lock_failure("deleting"@) {
                let store = choose|store: Store| reply@ == #[trigger] del_step(store, args).0;
                assert(reply@ == execute(store, command).0);
            }
        }
        reply
    } else if text_eq(command_name, "HSET") {
        let reply = set_op::hset(command_args, storage);
        proof {
            if hset_args(args) is Ok && reply@ != lock_failure("inserting"@) {
                let store = choose|store: Store| reply@ == #[trigger] hset_step(store, args).0;
                assert(reply@ == execute(store, command).0);
            }
        }
        reply
    } else if text_eq(command_name, "HGET") {
        let reply = set_op::hget(command_args, storage);
        proof {
            if hget_args(args) is Ok && reply@ != lock_failure("getting"@) {
                let store = choose|store: Store| reply@ == #[trigger] hget_reply(store, args);
                assert(reply@ == execute(store, command).0);
            }
        }
        reply
    } else if text_eq(command_name, "HGETALL") {
        let reply = set_op::hgetall(command_args, storage);
        proof {
            if hgetall_args(args) is Ok && reply@ != lock_failure("getting"@) {
                let store = choose|store: Store| reply@ == #[trigger] hgetall_reply(store, args);
                assert(reply@ == execute(store, command).0);
            }
        }
        reply
    } else if text_eq(command_name, "HDEL") {
        let reply = set_op::hdel(command_args, storage);
        proof {
            if hdel_args(args) is Ok && reply@ != lock_failure("inserting"@) {
                let store = choose|store: Store| reply@ == #[trigger] hdel_step(store, args).0;
                assert(reply@ == execute(store, command).0);
            }
        }
        reply
    } else {
        unknown_command_reply(command_name)
    }
}

} // verus!
