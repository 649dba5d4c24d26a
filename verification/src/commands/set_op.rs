//! The commands on hashes: `HSET`, `HGET`, `HGETALL` and `HDEL`.

use crate::commands::common::{
    bulk_arg, bulk_at, count_reply, count_to_reply, error_reply, lock_failure,
    lock_failure_reply, not_a_hash, not_a_hash_reply, Store,
};
use crate::lock::{guarded, guarded_mut, read_access, write_access};
use crate::resp::{lemma_array_view, values_of, RespType, Value};
use crate::storage::{
    field_value, has_field, with_field, without_field, Entry, FieldMap, Fields, Keyspace,
    StorageType,
};
use std::sync::Arc;
use std::sync::RwLock;
use vstd::prelude::*;

verus! {

/// The key that `HSET` is given, or the reply that says what is missing: the
/// key, or anything after it.
pub open spec fn hset_args(args: Seq<Value>) -> Result<Seq<char>, Value> {
    match bulk_at(args, 0) {
        None => Err(Value::Error("ARGERR key are required for HSET"@)),
        Some(key) => if args.len() == 1 {
            Err(Value::Error("ARGERR at least one field are required for HSET"@))
        } else {
            Ok(key)
        },
    }
}

/// How many pairs of bulk strings stand in `rest` from index `from` on,
/// before the first pair that is incomplete or holds another kind of value.
pub open spec fn leading_pairs(rest: Seq<Value>, from: int) -> nat
    decreases rest.len() - from,
{
    if 0 <= from && from + 1 < rest.len() && rest[from] is BulkString && rest[from + 1]
        is BulkString {
        1 + leading_pairs(rest, from + 2)
    } else {
        0
    }
}

/// `fields` after the first `count` pairs of `rest` are set, one after the
/// other: of each pair the first is the field's name, the second its value.
pub open spec fn set_pairs(fields: Fields, rest: Seq<Value>, count: nat) -> Fields
    decreases count,
{
    if count == 0 {
        fields
    } else {
        with_field(
            set_pairs(fields, rest, (count - 1) as nat),
            rest[2 * (count - 1)]->BulkString_0,
            rest[2 * (count - 1) + 1]->BulkString_0,
        )
    }
}

/// What `HSET` replies and what the store holds after it. Where the key
/// holds a string nothing changes. Else the pairs after the key are set in
/// the key's hash, a new one where the key held nothing, and the reply
/// counts the pairs.
pub open spec fn hset_step(store: Store, args: Seq<Value>) -> (Value, Store) {
    match hset_args(args) {
        Err(reply) => (reply, store),
        Ok(key) => if store.contains_key(key) && store[key] is StringVal {
            (not_a_hash(), store)
        } else {
            let base = if store.contains_key(key) {
                store[key]->HashVal_0
            } else {
                Seq::empty()
            };
            let pairs = args.skip(1);
            let count = leading_pairs(pairs, 0);
            (count_reply(count), store.insert(key, Entry::HashVal(set_pairs(base, pairs, count))))
        },
    }
}

/// The key and the field that `HGET` is given, or the reply that says that
/// one of them is missing.
pub open spec fn hget_args(args: Seq<Value>) -> Result<(Seq<char>, Seq<char>), Value> {
    match (bulk_at(args, 0), bulk_at(args, 1)) {
        (Some(key), Some(field)) => Ok((key, field)),
        _ => Err(Value::Error("ARGERR key and field is required for HGET"@)),
    }
}

/// What `HGET` replies: the value of the field in the key's hash; null where
/// the key holds no hash or the hash has no such field.
pub open spec fn hget_reply(store: Store, args: Seq<Value>) -> Value {
    match hget_args(args) {
        Err(reply) => reply,
        Ok((key, field)) => if store.contains_key(key) && store[key] is HashVal {
            match field_value(store[key]->HashVal_0, field) {
                Some(value) => Value::BulkString(value),
                None => Value::Null,
            }
        } else {
            Value::Null
        },
    }
}

/// The key that `HGETALL` is given, or the reply that says it is missing.
pub open spec fn hgetall_args(args: Seq<Value>) -> Result<Seq<char>, Value> {
    match bulk_at(args, 0) {
        None => Err(Value::Error("ARGERR key are required for HGETALL"@)),
        Some(key) => Ok(key),
    }
}

/// The fields as one flat list: each field's name, then its value.
pub open spec fn flat(fields: Fields) -> Seq<Value> {
    Seq::new(
        2 * fields.len(),
        |i: int|
            if i % 2 == 0 {
                Value::BulkString(fields[i / 2].0)
            } else {
                Value::BulkString(fields[i / 2].1)
            },
    )
}

/// What `HGETALL` replies: the fields of the key's hash with their values,
/// in the order in which they were first set; nothing where the key holds
/// nothing; an error where it holds a string.
pub open spec fn hgetall_reply(store: Store, args: Seq<Value>) -> Value {
    match hgetall_args(args) {
        Err(reply) => reply,
        Ok(key) => if !store.contains_key(key) {
            Value::Array(Seq::empty())
        } else {
            match store[key] {
                Entry::HashVal(fields) => Value::Array(flat(fields)),
                Entry::StringVal(_) => not_a_hash(),
            }
        },
    }
}

/// The key that `HDEL` is given, or the reply that says what is missing: the
/// key, or anything after it.
pub open spec fn hdel_args(args: Seq<Value>) -> Result<Seq<char>, Value> {
    match bulk_at(args, 0) {
        None => Err(Value::Error("ARGERR key are required for HDEL"@)),
        Some(key) => if args.len() == 1 {
            Err(Value::Error("ARGERR at least one field are required for HDEL"@))
        } else {
            Ok(key)
        },
    }
}

/// How many bulk strings stand in `rest` from index `from` on, before the
/// first value of another kind.
pub open spec fn leading_bulks(rest: Seq<Value>, from: int) -> nat
    decreases rest.len() - from,
{
    if 0 <= from < rest.len() && rest[from] is BulkString {
        1 + leading_bulks(rest, from + 1)
    } else {
        0
    }
}

/// `fields` after the fields that the first `count` values of `rest` name
/// are removed, one after the other, and how many of them were there when
/// their turn came.
pub open spec fn drop_fields(fields: Fields, rest: Seq<Value>, count: nat) -> (Fields, nat)
    decreases count,
{
    if count == 0 {
        (fields, 0)
    } else {
        let (before, found) = drop_fields(fields, rest, (count - 1) as nat);
        let name = rest[count - 1]->BulkString_0;
        (
            without_field(before, name),
            if has_field(before, name) {
                found + 1
            } else {
                found
            },
        )
    }
}

/// What `HDEL` replies and what the store holds after it. Where the key
/// holds nothing or a string nothing changes. Else the named fields leave
/// the key's hash, the reply counts those that were there, and a hash left
/// without fields leaves the store with its key.
pub open spec fn hdel_step(store: Store, args: Seq<Value>) -> (Value, Store) {
    match hdel_args(args) {
        Err(reply) => (reply, store),
        Ok(key) => if !store.contains_key(key) {
            (Value::Integer(0), store)
        } else {
            match store[key] {
                Entry::StringVal(_) => (not_a_hash(), store),
                Entry::HashVal(fields) => {
                    let names = args.skip(1);
                    let (after, found) = drop_fields(fields, names, leading_bulks(names, 0));
                    (
                        count_reply(found),
                        if after.len() == 0 {
                            store.remove(key)
                        } else {
                            store.insert(key, Entry::HashVal(after))
                        },
                    )
                },
            }
        },
    }
}

/// Reads the key of `HSET` and sees that something follows it.
pub fn read_hset_args(args: &[RespType]) -> (found: Result<&String, RespType>)
    ensures
        match found {
            Ok(key) => hset_args(values_of(args@)) == Ok::<Seq<char>, Value>(key@),
            Err(reply) => hset_args(values_of(args@)) == Err::<Seq<char>, Value>(reply@),
        },
{
    let key = match bulk_arg(args, 0) {
        Some(key) => key,
        None => return Err(error_reply("ARGERR key are required for HSET")),
    };
    if args.len() == 1 {
        return Err(error_reply("ARGERR at least one field are required for HSET"));
    }
    Ok(key)
}

/// Carries out `HSET` on a store that the caller has to itself.
pub fn hset_in(args: &[RespType], keyspace: &mut Keyspace) -> (reply: RespType)
    ensures
        (reply@, final(keyspace)@) == hset_step(old(keyspace)@, values_of(args@)),
{
    let key = match read_hset_args(args) {
        Ok(key) => key,
        Err(reply) => return reply,
    };
    let mut existing_hash = match keyspace.get(key.as_str()) {
        Some(StorageType::HashMap(existing_hash)) => existing_hash.clone(),
        Some(StorageType::String(_)) => return not_a_hash_reply(),
        None => FieldMap::new(),
    };
    let ghost base = existing_hash@;
    let ghost pairs = values_of(args@).skip(1);
    let mut insert_count: usize = 0;
    let mut i: usize = 1;
    loop
        invariant
            i == 1 + 2 * insert_count,
            i <= args@.len(),
            pairs == values_of(args@).skip(1),
            existing_hash@ == set_pairs(base, pairs, insert_count as nat),
            leading_pairs(pairs, 0) == insert_count + leading_pairs(pairs, 2 * insert_count),
        ensures
            leading_pairs(pairs, 2 * insert_count) == 0,
        decreases args@.len() - i,
    {
        if i >= args.len() {
            break ;
        }
        let (field_key, field_value) = match (bulk_arg(args, i), bulk_arg(args, i + 1)) {
            (Some(field_key), Some(field_value)) => (field_key, field_value),
            _ => {
                break ;
            },
        };
        existing_hash.insert(field_key.clone(), field_value.clone());
        insert_count = insert_count + 1;
        i = i + 2;
    }
    keyspace.insert(key.clone(), StorageType::HashMap(existing_hash));
    count_to_reply(insert_count)
}

/// `HSET key field value [field value ...]`: sets fields of the key's hash.
///
/// The arguments are read first; only where they are in order is the store
/// locked for writing. The reply is then that of [`hset_in`] on the store as
/// the lock gave it, or the failure reply where the lock could not be had.
pub fn hset(args: &[RespType], storage: Arc<RwLock<Keyspace>>) -> (reply: RespType)
    ensures
        match hset_args(values_of(args@)) {
            Err(refusal) => reply@ == refusal,
            Ok(_) => reply@ == lock_failure("inserting"@) || exists|store: Store|
                reply@ == #[trigger] hset_step(store, values_of(args@)).0,
        },
{
    match read_hset_args(args) {
        Err(reply) => reply,
        Ok(_) => match write_access(&storage) {
            Some(mut guard) => {
                let keyspace = guarded_mut(&mut guard);
                let ghost before = keyspace@;
                let reply = hset_in(args, keyspace);
                assert(reply@ == hset_step(before, values_of(args@)).0);
                reply
            },
            None => lock_failure_reply("inserting"),
        },
    }
}

/// Reads the key and the field of `HGET`.
pub fn read_hget_args(args: &[RespType]) -> (found: Result<(&String, &String), RespType>)
    ensures
        match found {
            Ok((key, field)) => hget_args(values_of(args@)) == Ok::<
                (Seq<char>, Seq<char>),
                Value,
            >((key@, field@)),
            Err(reply) => hget_args(values_of(args@)) == Err::<(Seq<char>, Seq<char>), Value>(
                reply@,
            ),
        },
{
    match (bulk_arg(args, 0), bulk_arg(args, 1)) {
        (Some(key), Some(field_key)) => Ok((key, field_key)),
        _ => Err(error_reply("ARGERR key and field is required for HGET")),
    }
}

/// Carries out `HGET` on a store.
pub fn hget_in(args: &[RespType], keyspace: &Keyspace) -> (reply: RespType)
    ensures
        reply@ == hget_reply(keyspace@, values_of(args@)),
{
    let (key, field_key) = match read_hget_args(args) {
        Ok(found) => found,
        Err(reply) => return reply,
    };
    match keyspace.get(key.as_str()) {
        Some(StorageType::HashMap(existing_hash)) => match existing_hash.get(field_key.as_str()) {
            Some(field_value) => RespType::BulkString(field_value.clone()),
            None => RespType::Null,
        },
        _ => RespType::Null,
    }
}

/// `HGET key field`: the value of a field of the key's hash.
///
/// The arguments are read first; only where they are in order is the store
/// locked for reading. The reply is then that of [`hget_in`] on the store as
/// the lock gave it, or the failure reply where the lock could not be had.
pub fn hget(args: &[RespType], storage: Arc<RwLock<Keyspace>>) -> (reply: RespType)
    ensures
        match hget_args(values_of(args@)) {
            Err(refusal) => reply@ == refusal,
            Ok(_) => reply@ == lock_failure("getting"@) || exists|store: Store|
                reply@ == #[trigger] hget_reply(store, values_of(args@)),
        },
{
    match read_hget_args(args) {
        Err(reply) => reply,
        Ok(_) => match read_access(&storage) {
            Some(guard) => hget_in(args, guarded(&guard)),
            None => lock_failure_reply("getting"),
        },
    }
}

/// Reads the key of `HGETALL`.
pub fn read_hgetall_args(args: &[RespType]) -> (found: Result<&String, RespType>)
    ensures
        match found {
            Ok(key) => hgetall_args(values_of(args@)) == Ok::<Seq<char>, Value>(key@),
            Err(reply) => hgetall_args(values_of(args@)) == Err::<Seq<char>, Value>(reply@),
        },
{
    match bulk_arg(args, 0) {
        Some(key) => Ok(key),
        None => Err(error_reply("ARGERR key are required for HGETALL")),
    }
}

/// Carries out `HGETALL` on a store.
pub fn hgetall_in(args: &[RespType], keyspace: &Keyspace) -> (reply: RespType)
    ensures
        reply@ == hgetall_reply(keyspace@, values_of(args@)),
{
    let key = match read_hgetall_args(args) {
        Ok(key) => key,
        Err(reply) => return reply,
    };
    let mut return_values: Vec<RespType> = Vec::new();
    match keyspace.get(key.as_str()) {
        Some(StorageType::HashMap(existing_hash)) => {
            let mut i: usize = 0;
            while i < existing_hash.len()
                invariant
                    i <= existing_hash@.len(),
                    return_values@.len() == 2 * i,
                    values_of(return_values@) == flat(existing_hash@.take(i as int)),
                decreases existing_hash@.len() - i,
            {
                let ghost so_far = values_of(return_values@);
                return_values.push(RespType::BulkString(existing_hash.name_at(i).clone()));
                return_values.push(RespType::BulkString(existing_hash.value_at(i).clone()));
                proof {
                    let now = values_of(return_values@);
                    let wanted = flat(existing_hash@.take(i + 1));
                    assert forall|k: int| 0 <= k < now.len() implies now[k] == wanted[k] by {
                        if k < 2 * i {
                            assert(now[k] == so_far[k]);
                        }
                    }
                }
                i = i + 1;
            }
            assert(existing_hash@.take(i as int) =~= existing_hash@);
        },
        Some(StorageType::String(_)) => {
            return not_a_hash_reply();
        },
        None => {
            assert(values_of(return_values@) =~= Seq::<Value>::empty());
        },
    }
    proof {
        lemma_array_view(return_values);
    }
    RespType::Array(return_values)
}

/// `HGETALL key`: all fields of the key's hash with their values.
///
/// The argument is read first; only where it is in order is the store
/// locked for reading. The reply is then that of [`hgetall_in`] on the store
/// as the lock gave it, or the failure reply where the lock could not be
/// had.
pub fn hgetall(args: &[RespType], storage: Arc<RwLock<Keyspace>>) -> (reply: RespType)
    ensures
        match hgetall_args(values_of(args@)) {
            Err(refusal) => reply@ == refusal,
            Ok(_) => reply@ == lock_failure("getting"@) || exists|store: Store|
                reply@ == #[trigger] hgetall_reply(store, values_of(args@)),
        },
{
    match read_hgetall_args(args) {
        Err(reply) => reply,
        Ok(_) => match read_access(&storage) {
            Some(guard) => hgetall_in(args, guarded(&guard)),
            None => lock_failure_reply("getting"),
        },
    }
}

/// Reads the key of `HDEL` and sees that something follows it.
pub fn read_hdel_args(args: &[RespType]) -> (found: Result<&String, RespType>)
    ensures
        match found {
            Ok(key) => hdel_args(values_of(args@)) == Ok::<Seq<char>, Value>(key@),
            Err(reply) => hdel_args(values_of(args@)) == Err::<Seq<char>, Value>(reply@),
        },
{
    let key = match bulk_arg(args, 0) {
        Some(key) => key,
        None => return Err(error_reply("ARGERR key are required for HDEL")),
    };
    if args.len() == 1 {
        return Err(error_reply("ARGERR at least one field are required for HDEL"));
    }
    Ok(key)
}

/// Carries out `HDEL` on a store that the caller has to itself.
pub fn hdel_in(args: &[RespType], keyspace: &mut Keyspace) -> (reply: RespType)
    ensures
        (reply@, final(keyspace)@) == hdel_step(old(keyspace)@, values_of(args@)),
{
    let key = match read_hdel_args(args) {
        Ok(key) => key,
        Err(reply) => return reply,
    };
    let mut existing_hash = match keyspace.get(key.as_str()) {
        Some(StorageType::HashMap(existing_hash)) => existing_hash.clone(),
        Some(StorageType::String(_)) => return not_a_hash_reply(),
        None => return RespType::Integer(0),
    };
    let ghost base = existing_hash@;
    let ghost names = values_of(args@).skip(1);
    let mut del_count: usize = 0;
    let mut i: usize = 1;
    loop
        invariant
            1 <= i <= args@.len(),
            del_count <= i - 1,
            names == values_of(args@).skip(1),
            (existing_hash@, del_count as nat) == drop_fields(base, names, (i - 1) as nat),
            leading_bulks(names, 0) == i - 1 + leading_bulks(names, i - 1),
        ensures
            leading_bulks(names, i - 1) == 0,
        decreases args@.len() - i,
    {
        if i >= args.len() {
            break ;
        }
        let key_to_delete = match bulk_arg(args, i) {
            Some(key_to_delete) => key_to_delete,
            None => {
                break ;
            },
        };
        if existing_hash.remove(key_to_delete.as_str()) {
            del_count = del_count + 1;
        }
        i = i + 1;
    }
    if existing_hash.is_empty() {
        keyspace.remove(key.as_str());
    } else {
        keyspace.insert(key.clone(), StorageType::HashMap(existing_hash));
    }
    count_to_reply(del_count)
}

/// `HDEL key field [field ...]`: removes fields of the key's hash.
///
/// The arguments are read first; only where they are in order is the store
/// locked for writing. The reply is then that of [`hdel_in`] on the store as
/// the lock gave it, or the failure reply where the lock could not be had.
pub fn hdel(args: &[RespType], storage: Arc<RwLock<Keyspace>>) -> (reply: RespType)
    ensures
        match hdel_args(values_of(args@)) {
            Err(refusal) => reply@ == refusal,
            Ok(_) => reply@ == lock_failure("inserting"@) || exists|store: Store|
                reply@ == #[trigger] hdel_step(store, values_of(args@)).0,
        },
{
    match read_hdel_args(args) {
        Err(reply) => reply,
        Ok(_) => match write_access(&storage) {
            Some(mut guard) => {
                let keyspace = guarded_mut(&mut guard);
                let ghost before = keyspace@;
                let reply = hdel_in(args, keyspace);
                assert(reply@ == hdel_step(before, values_of(args@)).0);
                reply
            },
            None => lock_failure_reply("inserting"),
        },
    }
}

} // verus!
