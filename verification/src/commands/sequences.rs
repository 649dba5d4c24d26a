//! What holds of requests that are carried out one after the other.

use crate::commands::commands::execute;
use crate::commands::common::{not_a_hash, Store};
use crate::commands::hello::hello_reply;
use crate::commands::ping::ping_reply;
use crate::commands::set_op::{
    drop_fields, hdel_args, hdel_step, hget_reply, hgetall_reply, hset_args, hset_step,
    leading_bulks, leading_pairs, set_pairs,
};
use crate::commands::string_op::{del_keys, del_step, get_reply, set_step};
use crate::resp::Value;
use crate::storage::{distinct_names, lemma_with_field, lemma_without_field, valid_store, Fields};
use vstd::prelude::*;

verus! {

/// A request: the command's name, then its arguments.
pub open spec fn request(name: Seq<char>, args: Seq<Value>) -> Seq<Value> {
    seq![Value::BulkString(name)] + args
}

/// A request with a known name is carried out by the command of that name.
pub proof fn lemma_execute_by_name(store: Store, args: Seq<Value>)
    ensures
        execute(store, request("PING"@, args)) == (ping_reply(args), store),
        execute(store, request("HELLO"@, args)) == (hello_reply(args), store),
        execute(store, request("SET"@, args)) == set_step(store, args),
        execute(store, request("GET"@, args)) == (get_reply(store, args), store),
        execute(store, request("DEL"@, args)) == del_step(store, args),
        execute(store, request("HSET"@, args)) == hset_step(store, args),
        execute(store, request("HGET"@, args)) == (hget_reply(store, args), store),
        execute(store, request("HGETALL"@, args)) == (hgetall_reply(store, args), store),
        execute(store, request("HDEL"@, args)) == hdel_step(store, args),
{
    reveal_strlit("PING");
    reveal_strlit("HELLO");
    reveal_strlit("SET");
    reveal_strlit("GET");
    reveal_strlit("DEL");
    reveal_strlit("HSET");
    reveal_strlit("HGET");
    reveal_strlit("HGETALL");
    reveal_strlit("HDEL");
    assert("SET"@[0] == 'S' && "GET"@[0] == 'G' && "DEL"@[0] == 'D');
    assert("HSET"@[1] == 'S' && "HGET"@[1] == 'G' && "HDEL"@[1] == 'D' && "PING"@[0] == 'P');
    assert(request("DEL"@, args).skip(1) =~= args);
    assert(request("HSET"@, args).skip(1) =~= args);
    assert(request("HDEL"@, args).skip(1) =~= args);
}

/// After `SET key value`, `GET key` replies the value, and leaves the store
/// as it found it: so it replies the same however often it is asked.
pub proof fn lemma_get_after_set(store: Store, key: Seq<char>, value: Seq<char>)
    ensures
        ({
            let set = request("SET"@, seq![Value::BulkString(key), Value::BulkString(value)]);
            let get = request("GET"@, seq![Value::BulkString(key)]);
            let after = execute(store, set).1;
            &&& execute(store, set).0 == Value::SimpleString("OK"@)
            &&& execute(after, get) == (Value::BulkString(value), after)
        }),
{
    let set_args = seq![Value::BulkString(key), Value::BulkString(value)];
    let get_args = seq![Value::BulkString(key)];
    lemma_execute_by_name(store, set_args);
    lemma_execute_by_name(execute(store, request("SET"@, set_args)).1, get_args);
}

/// `GET` never changes the store, whatever its arguments.
pub proof fn lemma_get_keeps_store(store: Store, args: Seq<Value>)
    ensures
        execute(store, request("GET"@, args)).1 == store,
{
    lemma_execute_by_name(store, args);
}

/// `DEL` of a key that holds nothing replies zero and changes nothing.
pub proof fn lemma_del_of_absent_key(store: Store, key: Seq<char>)
    requires
        !store.contains_key(key),
    ensures
        execute(store, request("DEL"@, seq![Value::BulkString(key)])) == (
            Value::Integer(0),
            store,
        ),
{
    let args = seq![Value::BulkString(key)];
    lemma_execute_by_name(store, args);
    reveal_with_fuel(del_keys, 2);
}

/// `HSET` on a key that holds a string is refused with a `WRONGTYPE` error
/// and changes nothing, whatever fields it names.
pub proof fn lemma_hset_on_string_key(store: Store, key: Seq<char>, pairs: Seq<Value>)
    requires
        store.contains_key(key),
        store[key] is StringVal,
        pairs.len() >= 1,
    ensures
        execute(store, request("HSET"@, seq![Value::BulkString(key)] + pairs)) == (
            not_a_hash(),
            store,
        ),
        not_a_hash() is Error,
        not_a_hash()->Error_0.take(9) == "WRONGTYPE"@,
{
    let args = seq![Value::BulkString(key)] + pairs;
    lemma_execute_by_name(store, args);
    reveal_strlit("WRONGTYPE operation against a key holding non-hashmap");
    reveal_strlit("WRONGTYPE");
}

/// After `SET key text`, `HSET key field value` is refused with a
/// `WRONGTYPE` error, and `GET key` still replies the text.
pub proof fn lemma_hset_after_set(
    store: Store,
    key: Seq<char>,
    text: Seq<char>,
    field: Seq<char>,
    value: Seq<char>,
)
    ensures
        ({
            let set = request("SET"@, seq![Value::BulkString(key), Value::BulkString(text)]);
            let hset = request(
                "HSET"@,
                seq![Value::BulkString(key), Value::BulkString(field), Value::BulkString(value)],
            );
            let get = request("GET"@, seq![Value::BulkString(key)]);
            let after = execute(store, set).1;
            &&& execute(after, hset) == (not_a_hash(), after)
            &&& execute(after, get) == (Value::BulkString(text), after)
        }),
{
    let set_args = seq![Value::BulkString(key), Value::BulkString(text)];
    let pairs = seq![Value::BulkString(field), Value::BulkString(value)];
    lemma_execute_by_name(store, set_args);
    let after = execute(store, request("SET"@, set_args)).1;
    lemma_hset_on_string_key(after, key, pairs);
    lemma_get_after_set(store, key, text);
}

/// Whether `fields` has no field but one called `name`, and that at most
/// once.
pub open spec fn no_other_field(fields: Fields, name: Seq<char>) -> bool {
    fields.len() == 0 || (fields.len() == 1 && fields[0].0 == name)
}

/// Where a key holds nothing, or a hash with no other field, `HSET key field
/// value` and then `HDEL key field` both reply one and leave the key
/// holding nothing: `HGETALL key` then replies no fields and `GET key`
/// replies null.
pub proof fn lemma_hdel_of_last_field(
    store: Store,
    key: Seq<char>,
    field: Seq<char>,
    value: Seq<char>,
)
    requires
        store.contains_key(key) ==> store[key] is HashVal && no_other_field(
            store[key]->HashVal_0,
            field,
        ),
    ensures
        ({
            let hset = request(
                "HSET"@,
                seq![Value::BulkString(key), Value::BulkString(field), Value::BulkString(value)],
            );
            let hdel = request("HDEL"@, seq![Value::BulkString(key), Value::BulkString(field)]);
            let hgetall = request("HGETALL"@, seq![Value::BulkString(key)]);
            let get = request("GET"@, seq![Value::BulkString(key)]);
            let set = execute(store, hset);
            let gone = execute(set.1, hdel);
            &&& set.0 == Value::Integer(1)
            &&& gone.0 == Value::Integer(1)
            &&& gone.1 == store.remove(key)
            &&& execute(gone.1, hgetall) == (Value::Array(Seq::empty()), gone.1)
            &&& execute(gone.1, get) == (Value::Null, gone.1)
        }),
{
    let hset_args = seq![Value::BulkString(key), Value::BulkString(field), Value::BulkString(value)];
    let hdel_args = seq![Value::BulkString(key), Value::BulkString(field)];
    let one_key = seq![Value::BulkString(key)];
    lemma_execute_by_name(store, hset_args);
    let set = execute(store, request("HSET"@, hset_args));
    reveal_with_fuel(leading_pairs, 2);
    reveal_with_fuel(set_pairs, 2);
    lemma_execute_by_name(set.1, hdel_args);
    let gone = execute(set.1, request("HDEL"@, hdel_args));
    reveal_with_fuel(leading_bulks, 2);
    reveal_with_fuel(drop_fields, 2);
    lemma_execute_by_name(gone.1, one_key);
}

/// Where a key holds no string, after `HSET key field value`, `HGET key
/// field` replies the value and leaves the store as it found it.
pub proof fn lemma_hget_after_hset(
    store: Store,
    key: Seq<char>,
    field: Seq<char>,
    value: Seq<char>,
)
    requires
        valid_store(store),
        store.contains_key(key) ==> store[key] is HashVal,
    ensures
        ({
            let hset = request(
                "HSET"@,
                seq![Value::BulkString(key), Value::BulkString(field), Value::BulkString(value)],
            );
            let hget = request("HGET"@, seq![Value::BulkString(key), Value::BulkString(field)]);
            let after = execute(store, hset).1;
            &&& execute(store, hset).0 == Value::Integer(1)
            &&& execute(after, hget) == (Value::BulkString(value), after)
        }),
{
    let hset_args = seq![Value::BulkString(key), Value::BulkString(field), Value::BulkString(value)];
    let hget_args = seq![Value::BulkString(key), Value::BulkString(field)];
    lemma_execute_by_name(store, hset_args);
    let after = execute(store, request("HSET"@, hset_args)).1;
    let base: Fields = if store.contains_key(key) {
        store[key]->HashVal_0
    } else {
        Seq::empty()
    };
    reveal_with_fuel(leading_pairs, 2);
    reveal_with_fuel(set_pairs, 2);
    lemma_with_field(base, field, value);
    lemma_execute_by_name(after, hget_args);
}

/// Setting pairs in a hash keeps its field names distinct.
pub proof fn lemma_set_pairs_keeps_distinct(fields: Fields, rest: Seq<Value>, count: nat)
    requires
        distinct_names(fields),
    ensures
        distinct_names(set_pairs(fields, rest, count)),
    decreases count,
{
    if count > 0 {
        lemma_set_pairs_keeps_distinct(fields, rest, (count - 1) as nat);
        lemma_with_field(
            set_pairs(fields, rest, (count - 1) as nat),
            rest[2 * (count - 1)]->BulkString_0,
            rest[2 * (count - 1) + 1]->BulkString_0,
        );
    }
}

/// Removing fields from a hash keeps its field names distinct.
pub proof fn lemma_drop_fields_keeps_distinct(fields: Fields, rest: Seq<Value>, count: nat)
    requires
        distinct_names(fields),
    ensures
        distinct_names(drop_fields(fields, rest, count).0),
    decreases count,
{
    if count > 0 {
        lemma_drop_fields_keeps_distinct(fields, rest, (count - 1) as nat);
        lemma_without_field(
            drop_fields(fields, rest, (count - 1) as nat).0,
            rest[count - 1]->BulkString_0,
        );
    }
}

/// Removing keys keeps the store in order.
pub proof fn lemma_del_keys_keeps_valid(store: Store, names: Seq<Value>)
    requires
        valid_store(store),
    ensures
        valid_store(del_keys(store, names).0),
    decreases names.len(),
{
    if names.len() > 0 {
        lemma_del_keys_keeps_valid(store, names.drop_last());
    }
}

/// Whatever the request, a store that is in order stays in order: no hash
/// ever has two fields of one name.
pub proof fn lemma_execute_keeps_valid(store: Store, command: Seq<Value>)
    requires
        valid_store(store),
    ensures
        valid_store(execute(store, command).1),
{
    let args = command.skip(1);
    lemma_del_keys_keeps_valid(store, args);
    if let Ok(key) = hset_args(args) {
        let base: Fields = if store.contains_key(key) && store[key] is HashVal {
            store[key]->HashVal_0
        } else {
            Seq::empty()
        };
        lemma_set_pairs_keeps_distinct(base, args.skip(1), leading_pairs(args.skip(1), 0));
    }
    if let Ok(key) = hdel_args(args) {
        if store.contains_key(key) && store[key] is HashVal {
            lemma_drop_fields_keeps_distinct(
                store[key]->HashVal_0,
                args.skip(1),
                leading_bulks(args.skip(1), 0),
            );
        }
    }
}

} // verus!
