//! The commands on string keys: `SET`, `GET` and `DEL`.

use crate::commands::common::{
    bulk_arg, bulk_at, count_reply, count_to_reply, error_reply, lock_failure,
    lock_failure_reply, Store,
};
use crate::lock::{guarded, guarded_mut, read_access, write_access};
use crate::resp::{values_of, RespType, Value};
use crate::storage::{Entry, Keyspace, StorageType};
use std::sync::Arc;
use std::sync::RwLock;
use vstd::prelude::*;

verus! {

/// The key and the value that `SET` is given, or the reply that says which
/// of them is missing.
pub open spec fn set_args(args: Seq<Value>) -> Result<(Seq<char>, Seq<char>), Value> {
    match bulk_at(args, 0) {
        None => Err(Value::Error("ARGERR no key are given for SET command"@)),
        Some(key) => match bulk_at(args, 1) {
            None => Err(Value::Error("ARGERR no value are given for SET command"@)),
            Some(value) => Ok((key, value)),
        },
    }
}

/// What `SET` replies and what the store holds after it: the key holds the
/// value as a string, whatever it held before.
pub open spec fn set_step(store: Store, args: Seq<Value>) -> (Value, Store) {
    match set_args(args) {
        Err(reply) => (reply, store),
        Ok((key, value)) => (
            Value::SimpleString("OK"@),
            store.insert(key, Entry::StringVal(value)),
        ),
    }
}

/// The key that `GET` is given, or the reply that says it is missing.
pub open spec fn get_args(args: Seq<Value>) -> Result<Seq<char>, Value> {
    match bulk_at(args, 0) {
        None => Err(Value::Error("ARGERR no key are given for GET command"@)),
        Some(key) => Ok(key),
    }
}

/// What `GET` replies: the string that the key holds, or null where the key
/// holds none.
pub open spec fn get_reply(store: Store, args: Seq<Value>) -> Value {
    match get_args(args) {
        Err(reply) => reply,
        Ok(key) => if store.contains_key(key) && store[key] is StringVal {
            Value::BulkString(store[key]->StringVal_0)
        } else {
            Value::Null
        },
    }
}

/// The store after the keys that `names` gives as bulk strings are removed,
/// one after the other, and how many of them held something when their turn
/// came.
pub open spec fn del_keys(store: Store, names: Seq<Value>) -> (Store, nat)
    decreases names.len(),
{
    if names.len() == 0 {
        (store, 0)
    } else {
        let (before, count) = del_keys(store, names.drop_last());
        match names.last() {
            Value::BulkString(key) => (
                before.remove(key),
                if before.contains_key(key) {
                    count + 1
                } else {
                    count
                },
            ),
            _ => (before, count),
        }
    }
}

/// What `DEL` replies and what the store holds after it.
pub open spec fn del_step(store: Store, args: Seq<Value>) -> (Value, Store) {
    if args.len() < 1 {
        (Value::Error("ARGERR no keys given for DEL command"@), store)
    } else {
        (count_reply(del_keys(store, args).1), del_keys(store, args).0)
    }
}

/// Reads the arguments of `SET`.
pub fn read_set_args(args: &[RespType]) -> (found: Result<(&String, &String), RespType>)
    ensures
        match found {
            Ok((key, value)) => set_args(values_of(args@)) == Ok::<
                (Seq<char>, Seq<char>),
                Value,
            >((key@, value@)),
            Err(reply) => set_args(values_of(args@)) == Err::<(Seq<char>, Seq<char>), Value>(
                reply@,
            ),
        },
{
    let key = match bulk_arg(args, 0) {
        Some(key) => key,
        None => return Err(error_reply("ARGERR no key are given for SET command")),
    };
    let value = match bulk_arg(args, 1) {
        Some(value) => value,
        None => return Err(error_reply("ARGERR no value are given for SET command")),
    };
    Ok((key, value))
}

/// Carries out `SET` on a store that the caller has to itself.
pub fn set_in(args: &[RespType], keyspace: &mut Keyspace) -> (reply: RespType)
    ensures
        (reply@, final(keyspace)@) == set_step(old(keyspace)@, values_of(args@)),
{
    match read_set_args(args) {
        Err(reply) => reply,
        Ok((key, value)) => {
            keyspace.insert(key.clone(), StorageType::String(value.clone()));
            RespType::String("OK".to_owned())
        },
    }
}

/// `SET key value`: lets the key hold the value as a string.
///
/// The arguments are read first; only where they are in order is the store
/// locked for writing. The reply is then that of [`set_in`] on the store as
/// the lock gave it, or the failure reply where the lock could not be had.
pub fn set(args: &[RespType], storage: Arc<RwLock<Keyspace>>) -> (reply: RespType)
    ensures
        match set_args(values_of(args@)) {
            Err(refusal) => reply@ == refusal,
            Ok(_) => reply@ == Value::SimpleString("OK"@) || reply@ == lock_failure(
                "inserting"@,
            ),
        },
{
    match read_set_args(args) {
        Err(reply) => reply,
        Ok(_) => match write_access(&storage) {
            Some(mut guard) => set_in(args, guarded_mut(&mut guard)),
            None => lock_failure_reply("inserting"),
        },
    }
}

/// Reads the argument of `GET`.
pub fn read_get_args(args: &[RespType]) -> (found: Result<&String, RespType>)
    ensures
        match found {
            Ok(key) => get_args(values_of(args@)) == Ok::<Seq<char>, Value>(key@),
            Err(reply) => get_args(values_of(args@)) == Err::<Seq<char>, Value>(reply@),
        },
{
    match bulk_arg(args, 0) {
        Some(key) => Ok(key),
        None => Err(error_reply("ARGERR no key are given for GET command")),
    }
}

/// Carries out `GET` on a store.
pub fn get_in(args: &[RespType], keyspace: &Keyspace) -> (reply: RespType)
    ensures
        reply@ == get_reply(keyspace@, values_of(args@)),
{
    match read_get_args(args) {
        Err(reply) => reply,
        Ok(key) => match keyspace.get(key.as_str()) {
            Some(StorageType::String(value)) => RespType::BulkString(value.clone()),
            _ => RespType::Null,
        },
    }
}

/// `GET key`: the string that the key holds.
///
/// The argument is read first; only where it is in order is the store
/// locked for reading. The reply is then that of [`get_in`] on the store as
/// the lock gave it, or the failure reply where the lock could not be had.
pub fn get(args: &[RespType], storage: Arc<RwLock<Keyspace>>) -> (reply: RespType)
    ensures
        match get_args(values_of(args@)) {
            Err(refusal) => reply@ == refusal,
            Ok(_) => reply@ == lock_failure("getting"@) || exists|store: Store|
                reply@ == #[trigger] get_reply(store, values_of(args@)),
        },
{
    match read_get_args(args) {
        Err(reply) => reply,
        Ok(_) => match read_access(&storage) {
            Some(guard) => get_in(args, guarded(&guard)),
            None => lock_failure_reply("getting"),
        },
    }
}

/// Carries out `DEL` on a store that the caller has to itself.
pub fn del_in(args: &[RespType], keyspace: &mut Keyspace) -> (reply: RespType)
    ensures
        (reply@, final(keyspace)@) == del_step(old(keyspace)@, values_of(args@)),
{
    if args.len() < 1 {
        return error_reply("ARGERR no keys given for DEL command");
    }
    let mut deleted_count: usize = 0;
    let mut i: usize = 0;
    while i < args.len()
        invariant
            i <= args@.len(),
            deleted_count <= i,
            (keyspace@, deleted_count as nat) == del_keys(
                old(keyspace)@,
                values_of(args@).take(i as int),
            ),
        decreases args@.len() - i,
    {
        proof {
            let names = values_of(args@);
            assert(names.take(i + 1).drop_last() =~= names.take(i as int));
        }
        if let RespType::BulkString(key) = &args[i] {
            if keyspace.remove(key.as_str()) {
                deleted_count = deleted_count + 1;
            }
        }
        i = i + 1;
    }
    assert(values_of(args@).take(i as int) =~= values_of(args@));
    count_to_reply(deleted_count)
}

/// `DEL key [key ...]`: removes the keys and counts those that held
/// something.
///
/// Only where a key is given is the store locked for writing. The reply is
/// then that of [`del_in`] on the store as the lock gave it, or the failure
/// reply where the lock could not be had.
pub fn del(args: &[RespType], storage: Arc<RwLock<Keyspace>>) -> (reply: RespType)
    ensures
        args@.len() < 1 ==> reply@ == Value::Error("ARGERR no keys given for DEL command"@),
        args@.len() >= 1 ==> reply@ == lock_failure("deleting"@) || exists|store: Store|
            reply@ == #[trigger] del_step(store, values_of(args@)).0,
{
    if args.len() < 1 {
        return error_reply("ARGERR no keys given for DEL command");
    }
    match write_access(&storage) {
        Some(mut guard) => {
            let keyspace = guarded_mut(&mut guard);
            let ghost before = keyspace@;
            let reply = del_in(args, keyspace);
            assert(reply@ == del_step(before, values_of(args@)).0);
            reply
        },
        None => lock_failure_reply("deleting"),
    }
}

} // verus!
