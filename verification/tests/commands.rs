use rust_eez::commands::commands::handle_commands;
use rust_eez::commands::commands::handle_commands_in;
use rust_eez::commands::common::bulk_arg;
use rust_eez::commands::common::count_to_reply;
use rust_eez::commands::common::error_reply;
use rust_eez::commands::common::lock_failure_reply;
use rust_eez::commands::common::not_a_hash_reply;
use rust_eez::commands::hello::hello;
use rust_eez::commands::ping::ping;
use rust_eez::commands::set_op;
use rust_eez::commands::string_op;
use rust_eez::lock::new_shared;
use rust_eez::resp::RespType;
use rust_eez::storage::FieldMap;
use rust_eez::storage::Keyspace;
use rust_eez::storage::StorageType;

fn bulk(text: &str) -> RespType {
    RespType::BulkString(text.into())
}

fn bulks(texts: &[&str]) -> Vec<RespType> {
    texts.iter().map(|text| bulk(text)).collect()
}

fn error(text: &str) -> RespType {
    RespType::Error(text.into())
}

fn run(keyspace: &mut Keyspace, request: &[&str]) -> RespType {
    handle_commands_in(&bulks(request), keyspace)
}

const WRONG_TYPE: &str = "WRONGTYPE operation against a key holding non-hashmap";

#[test]
fn ping_without_message_replies_pong() {
    assert_eq!(ping(&[]), RespType::String("PONG".into()));
}

#[test]
fn ping_echoes_a_bulk_message() {
    assert_eq!(ping(&bulks(&["hi"])), bulk("hi"));
    assert_eq!(ping(&bulks(&["hi", "more"])), bulk("hi"));
}

#[test]
fn ping_ignores_a_message_of_another_kind() {
    assert_eq!(
        ping(&[RespType::Integer(1)]),
        RespType::String("PONG".into())
    );
}

#[test]
fn hello_describes_the_server() {
    let identity = RespType::Array(bulks(&[
        "server",
        "rust-eez",
        "version",
        "0.1.0",
        "version-name",
        "hanabi",
        "proto",
        "2",
    ]));
    assert_eq!(hello(&[]), identity);
    assert_eq!(hello(&bulks(&["2"])), identity);
    assert_eq!(hello(&[RespType::Integer(3)]), identity);
}

#[test]
fn hello_refuses_other_protocol_versions() {
    let refusal = error("NOPROTO sorry, this protocol version is not supported.");
    assert_eq!(hello(&bulks(&["3"])), refusal);
    assert_eq!(hello(&bulks(&["22"])), refusal);
    assert_eq!(hello(&bulks(&[""])), refusal);
}

#[test]
fn bulk_arguments_are_found_by_index() {
    let args = vec![bulk("a"), RespType::Integer(1), bulk("c")];
    assert_eq!(bulk_arg(&args, 0), Some(&"a".to_string()));
    assert_eq!(bulk_arg(&args, 1), None);
    assert_eq!(bulk_arg(&args, 2), Some(&"c".to_string()));
    assert_eq!(bulk_arg(&args, 3), None);
}

#[test]
fn common_replies_have_their_texts() {
    assert_eq!(error_reply("ERR x"), error("ERR x"));
    assert_eq!(count_to_reply(0), RespType::Integer(0));
    assert_eq!(count_to_reply(17), RespType::Integer(17));
    assert_eq!(count_to_reply(usize::MAX), RespType::Integer(i64::MAX));
    assert_eq!(
        lock_failure_reply("inserting"),
        error("ERR system error while inserting data")
    );
    assert_eq!(
        lock_failure_reply("getting"),
        error("ERR system error while getting data")
    );
    assert_eq!(
        lock_failure_reply("deleting"),
        error("ERR system error while deleting data")
    );
    assert_eq!(not_a_hash_reply(), error(WRONG_TYPE));
}

#[test]
fn set_then_get_replies_the_value_each_time() {
    let mut keyspace = Keyspace::new();
    assert_eq!(
        run(&mut keyspace, &["SET", "k", "v"]),
        RespType::String("OK".into())
    );
    for _ in 0..3 {
        assert_eq!(run(&mut keyspace, &["GET", "k"]), bulk("v"));
    }
}

#[test]
fn set_overwrites_whatever_the_key_held() {
    let mut keyspace = Keyspace::new();
    run(&mut keyspace, &["HSET", "k", "f", "v"]);
    assert_eq!(
        run(&mut keyspace, &["SET", "k", "text"]),
        RespType::String("OK".into())
    );
    assert_eq!(run(&mut keyspace, &["GET", "k"]), bulk("text"));
    run(&mut keyspace, &["SET", "k", "other"]);
    assert_eq!(run(&mut keyspace, &["GET", "k"]), bulk("other"));
}

#[test]
fn set_ignores_further_arguments() {
    let mut keyspace = Keyspace::new();
    assert_eq!(
        run(&mut keyspace, &["SET", "k", "v", "EX", "10"]),
        RespType::String("OK".into())
    );
    assert_eq!(run(&mut keyspace, &["GET", "k"]), bulk("v"));
}

#[test]
fn set_asks_for_key_and_value() {
    let mut keyspace = Keyspace::new();
    assert_eq!(
        run(&mut keyspace, &["SET"]),
        error("ARGERR no key are given for SET command")
    );
    assert_eq!(
        run(&mut keyspace, &["SET", "k"]),
        error("ARGERR no value are given for SET command")
    );
    assert_eq!(
        string_op::set_in(&[RespType::Integer(1), bulk("v")], &mut keyspace),
        error("ARGERR no key are given for SET command")
    );
    assert_eq!(
        string_op::set_in(&[bulk("k"), RespType::Integer(1)], &mut keyspace),
        error("ARGERR no value are given for SET command")
    );
    assert_eq!(run(&mut keyspace, &["GET", "k"]), RespType::Null);
}

#[test]
fn get_of_a_missing_key_is_null() {
    let mut keyspace = Keyspace::new();
    assert_eq!(run(&mut keyspace, &["GET", "MISSING"]), RespType::Null);
}

#[test]
fn get_of_a_hash_is_null() {
    let mut keyspace = Keyspace::new();
    run(&mut keyspace, &["HSET", "h", "f", "v"]);
    assert_eq!(run(&mut keyspace, &["GET", "h"]), RespType::Null);
}

#[test]
fn get_asks_for_a_key() {
    let mut keyspace = Keyspace::new();
    assert_eq!(
        run(&mut keyspace, &["GET"]),
        error("ARGERR no key are given for GET command")
    );
    assert_eq!(
        string_op::get_in(&[RespType::Null], &keyspace),
        error("ARGERR no key are given for GET command")
    );
}

#[test]
fn del_of_a_missing_key_replies_zero() {
    let mut keyspace = Keyspace::new();
    run(&mut keyspace, &["SET", "other", "v"]);
    assert_eq!(run(&mut keyspace, &["DEL", "missing"]), RespType::Integer(0));
    assert_eq!(run(&mut keyspace, &["GET", "other"]), bulk("v"));
}

#[test]
fn del_counts_the_keys_it_removed() {
    let mut keyspace = Keyspace::new();
    run(&mut keyspace, &["SET", "a", "1"]);
    run(&mut keyspace, &["HSET", "b", "f", "2"]);
    run(&mut keyspace, &["SET", "c", "3"]);
    assert_eq!(
        run(&mut keyspace, &["DEL", "a", "missing", "b", "a"]),
        RespType::Integer(2)
    );
    assert_eq!(run(&mut keyspace, &["GET", "a"]), RespType::Null);
    assert_eq!(
        run(&mut keyspace, &["HGETALL", "b"]),
        RespType::Array(vec![])
    );
    assert_eq!(run(&mut keyspace, &["GET", "c"]), bulk("3"));
}

#[test]
fn del_skips_arguments_that_are_no_bulk_strings() {
    let mut keyspace = Keyspace::new();
    run(&mut keyspace, &["SET", "a", "1"]);
    run(&mut keyspace, &["SET", "b", "2"]);
    let args = vec![RespType::Integer(1), bulk("a"), RespType::Null, bulk("b")];
    assert_eq!(string_op::del_in(&args, &mut keyspace), RespType::Integer(2));
    assert_eq!(
        string_op::del_in(&[RespType::Integer(1)], &mut keyspace),
        RespType::Integer(0)
    );
}

#[test]
fn del_asks_for_a_key() {
    let mut keyspace = Keyspace::new();
    assert_eq!(
        run(&mut keyspace, &["DEL"]),
        error("ARGERR no keys given for DEL command")
    );
}

#[test]
fn hset_counts_the_pairs_it_set() {
    let mut keyspace = Keyspace::new();
    assert_eq!(
        run(&mut keyspace, &["HSET", "h", "a", "1", "b", "2"]),
        RespType::Integer(2)
    );
    assert_eq!(
        run(&mut keyspace, &["HSET", "h", "a", "3", "a", "4"]),
        RespType::Integer(2)
    );
    assert_eq!(run(&mut keyspace, &["HGET", "h", "a"]), bulk("4"));
    assert_eq!(run(&mut keyspace, &["HGET", "h", "b"]), bulk("2"));
}

#[test]
fn hset_drops_a_field_without_value() {
    let mut keyspace = Keyspace::new();
    assert_eq!(
        run(&mut keyspace, &["HSET", "h", "a", "1", "b"]),
        RespType::Integer(1)
    );
    assert_eq!(
        run(&mut keyspace, &["HGETALL", "h"]),
        RespType::Array(bulks(&["a", "1"]))
    );
}

#[test]
fn hset_stops_at_the_first_pair_that_is_not_bulk() {
    let mut keyspace = Keyspace::new();
    let args = vec![
        bulk("h"),
        bulk("a"),
        bulk("1"),
        bulk("b"),
        RespType::Integer(2),
        bulk("c"),
        bulk("3"),
    ];
    assert_eq!(set_op::hset_in(&args, &mut keyspace), RespType::Integer(1));
    assert_eq!(
        run(&mut keyspace, &["HGETALL", "h"]),
        RespType::Array(bulks(&["a", "1"]))
    );
}

#[test]
fn hset_with_a_lone_field_makes_an_empty_hash() {
    let mut keyspace = Keyspace::new();
    assert_eq!(run(&mut keyspace, &["HSET", "h", "a"]), RespType::Integer(0));
    match keyspace.get("h") {
        Some(StorageType::HashMap(fields)) => assert!(fields.is_empty()),
        other => panic!("unexpected entry {:?}", other),
    }
    assert_eq!(
        run(&mut keyspace, &["HGETALL", "h"]),
        RespType::Array(vec![])
    );
}

#[test]
fn hset_asks_for_key_and_fields() {
    let mut keyspace = Keyspace::new();
    assert_eq!(
        run(&mut keyspace, &["HSET"]),
        error("ARGERR key are required for HSET")
    );
    assert_eq!(
        set_op::hset_in(&[RespType::Integer(1), bulk("f"), bulk("v")], &mut keyspace),
        error("ARGERR key are required for HSET")
    );
    assert_eq!(
        run(&mut keyspace, &["HSET", "h"]),
        error("ARGERR at least one field are required for HSET")
    );
    assert!(keyspace.get("h").is_none());
}

#[test]
fn hset_on_a_string_fails_and_changes_nothing() {
    let mut keyspace = Keyspace::new();
    run(&mut keyspace, &["SET", "k", "x"]);
    assert_eq!(run(&mut keyspace, &["HSET", "k", "f", "v"]), error(WRONG_TYPE));
    assert_eq!(run(&mut keyspace, &["GET", "k"]), bulk("x"));
}

#[test]
fn hget_replies_the_value_of_a_field() {
    let mut keyspace = Keyspace::new();
    run(&mut keyspace, &["HSET", "h", "f", "v"]);
    assert_eq!(run(&mut keyspace, &["HGET", "h", "f"]), bulk("v"));
}

#[test]
fn hget_is_null_where_nothing_is_found() {
    let mut keyspace = Keyspace::new();
    run(&mut keyspace, &["HSET", "h", "f", "v"]);
    run(&mut keyspace, &["SET", "s", "text"]);
    assert_eq!(run(&mut keyspace, &["HGET", "missing", "f"]), RespType::Null);
    assert_eq!(run(&mut keyspace, &["HGET", "h", "missing"]), RespType::Null);
    assert_eq!(run(&mut keyspace, &["HGET", "s", "f"]), RespType::Null);
}

#[test]
fn hget_asks_for_key_and_field() {
    let mut keyspace = Keyspace::new();
    let refusal = error("ARGERR key and field is required for HGET");
    assert_eq!(run(&mut keyspace, &["HGET"]), refusal);
    assert_eq!(run(&mut keyspace, &["HGET", "h"]), refusal);
    assert_eq!(
        set_op::hget_in(&[bulk("h"), RespType::Integer(1)], &keyspace),
        refusal
    );
    assert_eq!(
        set_op::hget_in(&[RespType::Integer(1), bulk("f")], &keyspace),
        refusal
    );
}

#[test]
fn hgetall_lists_fields_in_the_order_of_their_first_setting() {
    let mut keyspace = Keyspace::new();
    run(&mut keyspace, &["HSET", "h", "b", "1", "a", "2"]);
    run(&mut keyspace, &["HSET", "h", "b", "3", "c", "4"]);
    assert_eq!(
        run(&mut keyspace, &["HGETALL", "h"]),
        RespType::Array(bulks(&["b", "3", "a", "2", "c", "4"]))
    );
}

#[test]
fn hgetall_of_a_missing_key_is_empty() {
    let mut keyspace = Keyspace::new();
    assert_eq!(
        run(&mut keyspace, &["HGETALL", "missing"]),
        RespType::Array(vec![])
    );
}

#[test]
fn hgetall_of_a_string_fails() {
    let mut keyspace = Keyspace::new();
    run(&mut keyspace, &["SET", "s", "text"]);
    assert_eq!(run(&mut keyspace, &["HGETALL", "s"]), error(WRONG_TYPE));
}

#[test]
fn hgetall_asks_for_a_key() {
    let mut keyspace = Keyspace::new();
    assert_eq!(
        run(&mut keyspace, &["HGETALL"]),
        error("ARGERR key are required for HGETALL")
    );
}

#[test]
fn hdel_counts_the_fields_it_removed() {
    let mut keyspace = Keyspace::new();
    run(&mut keyspace, &["HSET", "h", "a", "1", "b", "2", "c", "3"]);
    assert_eq!(
        run(&mut keyspace, &["HDEL", "h", "a", "missing", "c", "a"]),
        RespType::Integer(2)
    );
    assert_eq!(
        run(&mut keyspace, &["HGETALL", "h"]),
        RespType::Array(bulks(&["b", "2"]))
    );
}

#[test]
fn hdel_of_the_last_field_removes_the_key() {
    let mut keyspace = Keyspace::new();
    assert_eq!(
        run(&mut keyspace, &["HSET", "k", "f", "v"]),
        RespType::Integer(1)
    );
    assert_eq!(run(&mut keyspace, &["HDEL", "k", "f"]), RespType::Integer(1));
    assert_eq!(
        run(&mut keyspace, &["HGETALL", "k"]),
        RespType::Array(vec![])
    );
    assert_eq!(run(&mut keyspace, &["GET", "k"]), RespType::Null);
    assert!(keyspace.get("k").is_none());
}

#[test]
fn hdel_keeps_a_hash_that_has_fields_left() {
    let mut keyspace = Keyspace::new();
    run(&mut keyspace, &["HSET", "k", "g", "w"]);
    run(&mut keyspace, &["HSET", "k", "f", "v"]);
    assert_eq!(run(&mut keyspace, &["HDEL", "k", "f"]), RespType::Integer(1));
    assert_eq!(
        run(&mut keyspace, &["HGETALL", "k"]),
        RespType::Array(bulks(&["g", "w"]))
    );
}

#[test]
fn hdel_removes_a_hash_that_was_empty() {
    let mut keyspace = Keyspace::new();
    keyspace.insert("h".into(), StorageType::HashMap(FieldMap::new()));
    assert_eq!(run(&mut keyspace, &["HDEL", "h", "f"]), RespType::Integer(0));
    assert!(keyspace.get("h").is_none());
}

#[test]
fn hdel_stops_at_the_first_name_that_is_not_bulk() {
    let mut keyspace = Keyspace::new();
    run(&mut keyspace, &["HSET", "h", "a", "1", "b", "2"]);
    let args = vec![bulk("h"), bulk("a"), RespType::Integer(0), bulk("b")];
    assert_eq!(set_op::hdel_in(&args, &mut keyspace), RespType::Integer(1));
    assert_eq!(
        run(&mut keyspace, &["HGETALL", "h"]),
        RespType::Array(bulks(&["b", "2"]))
    );
}

#[test]
fn hdel_of_a_missing_key_replies_zero() {
    let mut keyspace = Keyspace::new();
    assert_eq!(
        run(&mut keyspace, &["HDEL", "missing", "f"]),
        RespType::Integer(0)
    );
    assert!(keyspace.get("missing").is_none());
}

#[test]
fn hdel_on_a_string_fails_and_changes_nothing() {
    let mut keyspace = Keyspace::new();
    run(&mut keyspace, &["SET", "s", "text"]);
    assert_eq!(run(&mut keyspace, &["HDEL", "s", "f"]), error(WRONG_TYPE));
    assert_eq!(run(&mut keyspace, &["GET", "s"]), bulk("text"));
}

#[test]
fn hdel_asks_for_key_and_fields() {
    let mut keyspace = Keyspace::new();
    assert_eq!(
        run(&mut keyspace, &["HDEL"]),
        error("ARGERR key are required for HDEL")
    );
    assert_eq!(
        run(&mut keyspace, &["HDEL", "h"]),
        error("ARGERR at least one field are required for HDEL")
    );
}

#[test]
fn request_must_start_with_a_bulk_string() {
    let mut keyspace = Keyspace::new();
    let refusal = error("WRONGTYPE wrong type, expected command name as a Bulk strings");
    assert_eq!(handle_commands_in(&[], &mut keyspace), refusal);
    assert_eq!(
        handle_commands_in(&[RespType::String("PING".into())], &mut keyspace),
        refusal
    );
    assert_eq!(
        handle_commands_in(&[RespType::Integer(1), bulk("PING")], &mut keyspace),
        refusal
    );
}

#[test]
fn unknown_command_is_named_in_the_reply() {
    let mut keyspace = Keyspace::new();
    assert_eq!(
        run(&mut keyspace, &["FLUSHALL"]),
        error("ERR unknown command 'FLUSHALL'")
    );
    assert_eq!(run(&mut keyspace, &[""]), error("ERR unknown command ''"));
}

#[test]
fn command_names_are_case_sensitive() {
    let mut keyspace = Keyspace::new();
    assert_eq!(
        run(&mut keyspace, &["ping"]),
        error("ERR unknown command 'ping'")
    );
    assert_eq!(
        run(&mut keyspace, &["Set", "k", "v"]),
        error("ERR unknown command 'Set'")
    );
}

#[test]
fn commands_are_found_by_name() {
    let mut keyspace = Keyspace::new();
    assert_eq!(run(&mut keyspace, &["PING"]), RespType::String("PONG".into()));
    assert_eq!(run(&mut keyspace, &["PING", "hi"]), bulk("hi"));
    assert_eq!(
        run(&mut keyspace, &["HELLO", "3"]),
        error("NOPROTO sorry, this protocol version is not supported.")
    );
    assert_eq!(hello(&[]), run(&mut keyspace, &["HELLO"]));
}

#[test]
fn shared_store_serves_every_command() {
    let storage = new_shared();
    let ask = |request: &[&str]| handle_commands(bulks(request), storage.clone());
    assert_eq!(ask(&["PING"]), RespType::String("PONG".into()));
    assert_eq!(ask(&["HELLO"]), hello(&[]));
    assert_eq!(ask(&["SET", "k", "v"]), RespType::String("OK".into()));
    assert_eq!(ask(&["GET", "k"]), bulk("v"));
    assert_eq!(ask(&["HSET", "k", "f", "v"]), error(WRONG_TYPE));
    assert_eq!(ask(&["DEL", "k", "k"]), RespType::Integer(1));
    assert_eq!(ask(&["GET", "k"]), RespType::Null);
    assert_eq!(ask(&["HSET", "h", "f", "v", "g", "w"]), RespType::Integer(2));
    assert_eq!(ask(&["HGET", "h", "g"]), bulk("w"));
    assert_eq!(
        ask(&["HGETALL", "h"]),
        RespType::Array(bulks(&["f", "v", "g", "w"]))
    );
    assert_eq!(ask(&["HDEL", "h", "f", "g"]), RespType::Integer(2));
    assert_eq!(ask(&["HGETALL", "h"]), RespType::Array(vec![]));
    assert_eq!(ask(&["NOPE"]), error("ERR unknown command 'NOPE'"));
    assert_eq!(
        handle_commands(vec![], storage.clone()),
        error("WRONGTYPE wrong type, expected command name as a Bulk strings")
    );
}

#[test]
fn shared_commands_can_be_called_one_by_one() {
    let storage = new_shared();
    assert_eq!(
        string_op::set(&bulks(&["k", "v"]), storage.clone()),
        RespType::String("OK".into())
    );
    assert_eq!(string_op::get(&bulks(&["k"]), storage.clone()), bulk("v"));
    assert_eq!(
        string_op::del(&bulks(&["k"]), storage.clone()),
        RespType::Integer(1)
    );
    assert_eq!(
        set_op::hset(&bulks(&["h", "f", "v"]), storage.clone()),
        RespType::Integer(1)
    );
    assert_eq!(set_op::hget(&bulks(&["h", "f"]), storage.clone()), bulk("v"));
    assert_eq!(
        set_op::hgetall(&bulks(&["h"]), storage.clone()),
        RespType::Array(bulks(&["f", "v"]))
    );
    assert_eq!(
        set_op::hdel(&bulks(&["h", "f"]), storage.clone()),
        RespType::Integer(1)
    );
    assert!(storage.read().unwrap().get("h").is_none());
}

#[test]
fn shared_commands_refuse_bad_arguments() {
    let storage = new_shared();
    assert_eq!(
        string_op::set(&[], storage.clone()),
        error("ARGERR no key are given for SET command")
    );
    assert_eq!(
        string_op::set(&bulks(&["k"]), storage.clone()),
        error("ARGERR no value are given for SET command")
    );
    assert_eq!(
        string_op::get(&[], storage.clone()),
        error("ARGERR no key are given for GET command")
    );
    assert_eq!(
        string_op::del(&[], storage.clone()),
        error("ARGERR no keys given for DEL command")
    );
    assert_eq!(
        set_op::hset(&[], storage.clone()),
        error("ARGERR key are required for HSET")
    );
    assert_eq!(
        set_op::hset(&bulks(&["h"]), storage.clone()),
        error("ARGERR at least one field are required for HSET")
    );
    assert_eq!(
        set_op::hget(&bulks(&["h"]), storage.clone()),
        error("ARGERR key and field is required for HGET")
    );
    assert_eq!(
        set_op::hgetall(&[], storage.clone()),
        error("ARGERR key are required for HGETALL")
    );
    assert_eq!(
        set_op::hdel(&[], storage.clone()),
        error("ARGERR key are required for HDEL")
    );
    assert_eq!(
        set_op::hdel(&bulks(&["h"]), storage.clone()),
        error("ARGERR at least one field are required for HDEL")
    );
}

#[test]
fn arguments_are_read_before_the_store_is_touched() {
    assert_eq!(
        string_op::read_set_args(&bulks(&["k", "v"])),
        Ok((&"k".to_string(), &"v".to_string()))
    );
    assert_eq!(
        string_op::read_get_args(&bulks(&["k"])),
        Ok(&"k".to_string())
    );
    assert_eq!(
        set_op::read_hset_args(&bulks(&["h", "f"])),
        Ok(&"h".to_string())
    );
    assert_eq!(
        set_op::read_hget_args(&bulks(&["h", "f"])),
        Ok((&"h".to_string(), &"f".to_string()))
    );
    assert_eq!(
        set_op::read_hgetall_args(&bulks(&["h"])),
        Ok(&"h".to_string())
    );
    assert_eq!(
        set_op::read_hdel_args(&bulks(&["h", "f"])),
        Ok(&"h".to_string())
    );
    assert_eq!(
        set_op::read_hdel_args(&bulks(&["h"])),
        Err(error("ARGERR at least one field are required for HDEL"))
    );
}
