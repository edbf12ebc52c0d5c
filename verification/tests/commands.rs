use chrono::{DateTime, Duration as ChronoDuration, TimeZone, Utc};
use rust_playground::modules::clock::Instant;
use rust_playground::modules::commands::{execute_command, execute_command_at, run_command};
use rust_playground::modules::store::Redis;
use rust_playground::modules::string_array::ArrayPlacement;
use rust_playground::modules::types::RedisDeserializationTypes;

fn setup() -> Redis {
    Redis::new()
}

fn instant_of(d: DateTime<Utc>) -> Instant {
    Instant { secs: d.timestamp(), nanos: d.timestamp_subsec_nanos() }
}

struct SetExpiryArgs {
    config: String,
    value: String,
}

fn build_command(args: Vec<RedisDeserializationTypes>) -> RedisDeserializationTypes {
    RedisDeserializationTypes::Array(Box::new(args))
}

fn run(command: &RedisDeserializationTypes, redis: &mut Redis) -> String {
    execute_command(command, redis).expect("the command aborted")
}

fn set_command(key: String, value: String, expiry: Option<SetExpiryArgs>) -> RedisDeserializationTypes {
    let mut command = vec![
        RedisDeserializationTypes::BulkString("SET".to_string()),
        RedisDeserializationTypes::BulkString(key),
        RedisDeserializationTypes::BulkString(value),
    ];
    match expiry {
        Some(args) => {
            command.extend([
                RedisDeserializationTypes::BulkString(args.config),
                RedisDeserializationTypes::BulkString(args.value),
            ]);
        }
        None => {}
    };
    build_command(command)
}

fn get_command(key: String) -> RedisDeserializationTypes {
    build_command(vec![
        RedisDeserializationTypes::BulkString("GET".to_string()),
        RedisDeserializationTypes::BulkString(key),
    ])
}

fn execute_set(redis: &mut Redis, key: String, value: String, expiry: Option<SetExpiryArgs>) -> String {
    run(&set_command(key, value, expiry), redis)
}

fn execute_get(redis: &mut Redis, key: String) -> String {
    run(&get_command(key), redis)
}

fn execute_exist(redis: &mut Redis, keys: Vec<String>) -> String {
    let mut command = vec![RedisDeserializationTypes::BulkString("EXIST".to_string())];
    command.extend(keys.iter().map(|x| RedisDeserializationTypes::BulkString(x.to_string())));
    run(&build_command(command), redis)
}

fn execute_del(redis: &mut Redis, keys: Vec<String>) -> String {
    let mut command = vec![RedisDeserializationTypes::BulkString("DEL".to_string())];
    command.extend(keys.iter().map(|x| RedisDeserializationTypes::BulkString(x.to_string())));
    run(&build_command(command), redis)
}

fn execute_array_push(redis: &mut Redis, key: String, values: Vec<String>, placement: ArrayPlacement) -> String {
    let mut command = vec![RedisDeserializationTypes::BulkString(
        (if placement == ArrayPlacement::LEFT { "LPUSH" } else { "RPUSH" }).to_string(),
    )];
    command.extend([RedisDeserializationTypes::BulkString(key)]);
    command.extend(values.iter().map(|v| RedisDeserializationTypes::BulkString(v.to_string())));
    run(&build_command(command), redis)
}

#[derive(PartialEq)]
enum ArithmeticCommand {
    INCR,
    DECR,
}

fn execute_incr_or_decr(redis: &mut Redis, key: String, command: ArithmeticCommand) -> String {
    run(
        &build_command(vec![
            RedisDeserializationTypes::BulkString(
                (if command == ArithmeticCommand::INCR { "INCR" } else { "DECR" }).to_string(),
            ),
            RedisDeserializationTypes::BulkString(key),
        ]),
        redis,
    )
}

#[test]
fn it_should_ping_pong() {
    let mut redis = setup();
    let response = run(
        &build_command(vec![RedisDeserializationTypes::BulkString(
            "PING".to_string(),
        )]),
        &mut redis,
    );
    assert_eq!(response, "+PONG\r\n")
}

#[test]
fn it_should_echo() {
    let mut redis = setup();
    let response = run(
        &build_command(vec![
            RedisDeserializationTypes::BulkString("ECHO".to_string()),
            RedisDeserializationTypes::BulkString("Hello World".to_string()),
        ]),
        &mut redis,
    );
    assert_eq!(response, "+Hello World\r\n")
}

#[test]
fn it_should_error_echo() {
    let mut redis = setup();
    let response = run(
        &build_command(vec![RedisDeserializationTypes::BulkString(
            "ECHO".to_string(),
        )]),
        &mut redis,
    );
    assert_eq!(response, "-Invalid Command\r\n")
}

#[test]
fn it_should_error() {
    let mut redis = setup();
    let response = run(
        &build_command(vec![
            RedisDeserializationTypes::BulkString("123".to_string()),
            RedisDeserializationTypes::BulkString("Hello World".to_string()),
        ]),
        &mut redis,
    );
    assert_eq!(response, "-Invalid Command\r\n")
}

#[test]
fn it_should_set_and_get() {
    let mut redis = setup();

    let response = execute_set(
        &mut redis,
        "Name".to_string(),
        "Felipe".to_string(),
        None,
    );

    assert_eq!(response, "+OK\r\n".to_string());
    let response = execute_get(&mut redis, "Name".to_string());

    assert_eq!(response, "+Felipe\r\n");
}

#[test]
fn it_should_set_and_get_overwrite() {
    let mut redis = setup();
    let response = execute_set(
        &mut redis,
        "Name".to_string(),
        "Felipe".to_string(),
        None,
    );
    assert_eq!(response, "+OK\r\n".to_string());

    let response = execute_set(
        &mut redis,
        "Name".to_string(),
        "Carlos".to_string(),
        None,
    );
    assert_eq!(response, "+OK\r\n".to_string());

    let response = execute_get(&mut redis, "Name".to_string());

    assert_eq!(response, "+Carlos\r\n");
}

#[test]
fn it_should_fail_set() {
    let mut redis = setup();
    let response = run(
        &build_command(vec![
            RedisDeserializationTypes::BulkString("SET".to_string()),
            RedisDeserializationTypes::BulkString("Name".to_string()),
        ]),
        &mut redis,
    );
    assert_eq!(response, "-Invalid Command\r\n");
}

#[test]
fn commands_it_should_fail_get() {
    let mut redis = setup();
    let response = run(
        &build_command(vec![RedisDeserializationTypes::BulkString(
            "GET".to_string(),
        )]),
        &mut redis,
    );
    assert_eq!(response, "-Invalid Command\r\n");
}

#[test]
fn it_should_get_none() {
    let mut redis = setup();

    let response = execute_get(&mut redis, "Age".to_string());
    assert_eq!(response, "+NONE\r\n");
}

#[test]
fn it_should_exist_1() {
    let mut redis = setup();

    execute_set(
        &mut redis,
        "Name".to_string(),
        "Felipe".to_string(),
        None,
    );

    let response = execute_exist(&mut redis, vec!["Name".to_string()]);

    assert_eq!(response, "+1\r\n");
}

#[test]
fn it_should_exist_3() {
    let mut redis = setup();

    execute_set(
        &mut redis,
        "Name".to_string(),
        "Felipe".to_string(),
        None,
    );

    execute_set(
        &mut redis,
        "Age".to_string(),
        "23".to_string(),
        None,
    );

    execute_set(
        &mut redis,
        "Country".to_string(),
        "Portugal".to_string(),
        None,
    );

    let response = execute_exist(
        &mut redis,
        vec!["Name".to_string(), "Age".to_string(), "Country".to_string()],
    );

    assert_eq!(response, "+3\r\n");
}

#[test]
fn it_should_not_exist() {
    let mut redis = setup();

    execute_set(
        &mut redis,
        "Name".to_string(),
        "Felipe".to_string(),
        None,
    );

    execute_set(
        &mut redis,
        "Age".to_string(),
        "23".to_string(),
        None,
    );

    execute_set(
        &mut redis,
        "Country".to_string(),
        "Portugal".to_string(),
        None,
    );

    let response = execute_exist(
        &mut redis,
        vec![
            "Sex".to_string(),
            "Language".to_string(),
            "Marital Status".to_string(),
        ],
    );

    assert_eq!(response, "+0\r\n")
}

#[test]
pub fn should_delete() {
    let mut redis = setup();

    execute_set(
        &mut redis,
        "Name".to_string(),
        "Felipe".to_string(),
        None,
    );

    let response = execute_del(&mut redis, vec!["Name".to_string()]);
    assert_eq!(response, "+1\r\n");

    let response = execute_get(&mut redis, "Name".to_string());
    assert_eq!(response, "+NONE\r\n");
}

#[test]
pub fn should_delete_3() {
    let mut redis = setup();

    execute_set(
        &mut redis,
        "Name".to_string(),
        "Felipe".to_string(),
        None,
    );
    execute_set(
        &mut redis,
        "Age".to_string(),
        "23".to_string(),
        None,
    );
    execute_set(
        &mut redis,
        "Country".to_string(),
        "UAE".to_string(),
        None,
    );

    let response = execute_del(
        &mut redis,
        vec!["Name".to_string(), "Age".to_string(), "Country".to_string()],
    );
    assert_eq!(response, "+3\r\n");

    let response = execute_get(&mut redis, "Name".to_string());
    assert_eq!(response, "+NONE\r\n");
    let response = execute_get(&mut redis, "Age".to_string());
    assert_eq!(response, "+NONE\r\n");
    let response = execute_get(&mut redis, "Country".to_string());
    assert_eq!(response, "+NONE\r\n");
}

#[test]
pub fn should_delete_0() {
    let mut redis = setup();

    execute_set(
        &mut redis,
        "Name".to_string(),
        "Felipe".to_string(),
        None,
    );
    execute_set(
        &mut redis,
        "Age".to_string(),
        "23".to_string(),
        None,
    );
    execute_set(
        &mut redis,
        "Country".to_string(),
        "UAE".to_string(),
        None,
    );

    let response = execute_del(
        &mut redis,
        vec![
            "Sex".to_string(),
            "Marital Status".to_string(),
            "Income".to_string(),
        ],
    );
    assert_eq!(response, "+0\r\n");

    let response = execute_get(&mut redis, "Name".to_string());
    assert_eq!(response, "+Felipe\r\n");
    let response = execute_get(&mut redis, "Age".to_string());
    assert_eq!(response, "+23\r\n");
    let response = execute_get(&mut redis, "Country".to_string());
    assert_eq!(response, "+UAE\r\n");
}

#[test]
fn should_increment_set_0() {
    let mut redis = setup();

    let response = execute_incr_or_decr(&mut redis, "New".to_string(), ArithmeticCommand::INCR);
    assert_eq!(response, "+OK\r\n".to_string());

    let response = execute_get(&mut redis, "New".to_string());
    assert_eq!(response, "+0\r\n".to_string());
}

#[test]
fn should_increment() {
    let mut redis = setup();

    let response = execute_incr_or_decr(&mut redis, "New".to_string(), ArithmeticCommand::INCR);
    assert_eq!(response, "+OK\r\n".to_string());

    let response = execute_incr_or_decr(&mut redis, "New".to_string(), ArithmeticCommand::INCR);
    assert_eq!(response, "+OK\r\n".to_string());

    let response = execute_get(&mut redis, "New".to_string());
    assert_eq!(response, "+1\r\n".to_string());
}

#[test]
fn should_increment_set() {
    let mut redis = setup();

    let response = execute_set(&mut redis, "New".to_string(), "12".to_string(), None);
    assert_eq!(response, "+OK\r\n".to_string());

    let response = execute_incr_or_decr(&mut redis, "New".to_string(), ArithmeticCommand::INCR);
    assert_eq!(response, "+OK\r\n".to_string());

    let response = execute_get(&mut redis, "New".to_string());
    assert_eq!(response, "+13\r\n".to_string());
}

#[test]
fn should_fail_increment() {
    let mut redis = setup();

    let response = execute_set(&mut redis, "New".to_string(), "not number".to_string(), None);
    assert_eq!(response, "+OK\r\n".to_string());

    let response = execute_incr_or_decr(&mut redis, "New".to_string(), ArithmeticCommand::INCR);
    assert_eq!(response, "-Invalid operation on string\r\n".to_string());

    let response = execute_get(&mut redis, "New".to_string());
    assert_eq!(response, "+not number\r\n".to_string());
}

#[test]
fn should_not_change_expiry_increment_on_valid_number() {
    let mut redis = setup();

    let expiry_time = (Utc::now() + ChronoDuration::seconds(600)).timestamp();

    let response = execute_set(&mut redis, "New".to_string(), "10".to_string(),
     Some(SetExpiryArgs {
                config: "EAXT".to_string(),
                value: expiry_time.to_string(),
    }));
    assert_eq!(response, "+OK\r\n".to_string());

    let response = execute_incr_or_decr(&mut redis, "New".to_string(), ArithmeticCommand::INCR);
    assert_eq!(response, "+OK\r\n".to_string());

    let response = execute_get(&mut redis, "New".to_string());
    assert_eq!(response, "+11\r\n".to_string());

    if let Some(value) = redis.get("New") {
        assert_eq!(value.expiry.unwrap(), instant_of(Utc.timestamp_opt(expiry_time, 0).unwrap()));
        assert_eq!(value.value, "11".to_string());
    };
}

#[test]
fn should_not_change_expiry_increment_on_invalid_number() {
    let mut redis = setup();

    let expiry_time = (Utc::now() + ChronoDuration::seconds(600)).timestamp();

    let response = execute_set(&mut redis, "New".to_string(), "not number".to_string(),
     Some(SetExpiryArgs {
                config: "EAXT".to_string(),
                value: expiry_time.to_string(),
    }));
    assert_eq!(response, "+OK\r\n".to_string());

    let response = execute_incr_or_decr(&mut redis, "New".to_string(), ArithmeticCommand::INCR);
    assert_eq!(response, "-Invalid operation on string\r\n".to_string());

    let response = execute_get(&mut redis, "New".to_string());
    assert_eq!(response, "+not number\r\n".to_string());

    if let Some(value) = redis.get("New") {
        assert_eq!(value.expiry.unwrap(), instant_of(Utc.timestamp_opt(expiry_time, 0).unwrap()));
        assert_eq!(value.value, "not number".to_string());
    };
}

#[test]
fn should_create_and_insert_on_array_lpush() {
    let mut redis = setup();

    let response = execute_array_push(&mut redis, "array".to_string(), vec![
        "element1".to_string(),
        "element2".to_string(),
        "element3".to_string(),
        "element4".to_string(),
    ], ArrayPlacement::LEFT);
    assert_eq!("+4\r\n".to_string(), response);

    let response = execute_get(&mut redis, "array".to_string());
    assert_eq!("+[element4,element3,element2,element1]\r\n".to_string(), response);
}

#[test]
fn should_fail_insert_on_array() {
    let mut redis = setup();

    execute_set(&mut redis, "not_array".to_string(), "not_array".to_string(), None);

    let response = execute_array_push(&mut redis, "not_array".to_string(), vec![
        "element1".to_string(),
    ], ArrayPlacement::LEFT);

    assert_eq!("-The string it's not an array\r\n".to_string(), response);
}

#[test]
fn should_create_and_insert_on_array_rpush() {
    let mut redis = setup();

    let response = execute_array_push(&mut redis, "array".to_string(), vec![
        "element1".to_string(),
        "element2".to_string(),
        "element3".to_string(),
        "element4".to_string(),
    ], ArrayPlacement::RIGHT);
    assert_eq!("+4\r\n".to_string(), response);

    let response = execute_get(&mut redis, "array".to_string());
    assert_eq!("+[element1,element2,element3,element4]\r\n".to_string(), response);
}


fn expiry(config: &str, value: String) -> Option<SetExpiryArgs> {
    Some(SetExpiryArgs { config: config.to_string(), value })
}

#[test]
fn set_ex_expires_after_its_seconds() {
    let mut redis = setup();
    let t0 = instant_of(Utc::now());
    let t2 = Instant { secs: t0.secs + 2, nanos: t0.nanos };
    let set = set_command("Name".to_string(), "Felipe".to_string(), expiry("EX", "1".to_string()));
    assert_eq!(execute_command_at(&set, &mut redis, t0), "+OK\r\n");
    assert_eq!(execute_command_at(&get_command("Name".to_string()), &mut redis, t0), "+Felipe\r\n");
    assert_eq!(execute_command_at(&get_command("Name".to_string()), &mut redis, t2), "+NONE\r\n");
}

#[test]
fn set_px_expires_after_its_milliseconds() {
    let mut redis = setup();
    let t0 = instant_of(Utc::now());
    let t2 = Instant { secs: t0.secs + 2, nanos: t0.nanos };
    let set = set_command("Name".to_string(), "Felipe".to_string(), expiry("PX", "1000".to_string()));
    assert_eq!(execute_command_at(&set, &mut redis, t0), "+OK\r\n");
    assert_eq!(execute_command_at(&get_command("Name".to_string()), &mut redis, t0), "+Felipe\r\n");
    assert_eq!(execute_command_at(&get_command("Name".to_string()), &mut redis, t2), "+NONE\r\n");
}

#[test]
fn set_eaxt_expires_at_its_timestamp() {
    let mut redis = setup();
    let t0 = Instant { secs: 1_000, nanos: 0 };
    let t2 = Instant { secs: 1_002, nanos: 0 };
    let set = set_command("Name".to_string(), "Felipe".to_string(), expiry("EAXT", "1001".to_string()));
    assert_eq!(execute_command_at(&set, &mut redis, t0), "+OK\r\n");
    assert_eq!(execute_command_at(&get_command("Name".to_string()), &mut redis, t0), "+Felipe\r\n");
    assert_eq!(execute_command_at(&get_command("Name".to_string()), &mut redis, t2), "+NONE\r\n");
}

#[test]
fn set_pxat_truncates_to_whole_seconds() {
    let mut redis = setup();
    let set = set_command("Name".to_string(), "Felipe".to_string(), expiry("PXAT", "1001999".to_string()));
    assert_eq!(execute_command_at(&set, &mut redis, Instant { secs: 1_000, nanos: 0 }), "+OK\r\n");
    assert_eq!(
        execute_command_at(&get_command("Name".to_string()), &mut redis, Instant { secs: 1_000, nanos: 999_999_999 }),
        "+Felipe\r\n"
    );
    assert_eq!(
        execute_command_at(&get_command("Name".to_string()), &mut redis, Instant { secs: 1_001, nanos: 0 }),
        "+NONE\r\n"
    );
}

#[test]
fn set_with_unknown_option_is_invalid() {
    let mut redis = setup();
    let response = execute_set(&mut redis, "Name".to_string(), "Felipe".to_string(), expiry("KEEP", "1".to_string()));
    assert_eq!(response, "-Invalid Command\r\n");
    assert_eq!(execute_get(&mut redis, "Name".to_string()), "+NONE\r\n");
}

#[test]
fn set_with_non_numeric_expiry_aborts() {
    let mut redis = setup();
    let set = set_command("Name".to_string(), "Felipe".to_string(), expiry("EX", "soon".to_string()));
    assert_eq!(execute_command(&set, &mut redis), None);
}

#[test]
fn increment_past_the_largest_integer_aborts() {
    let mut redis = setup();
    execute_set(&mut redis, "New".to_string(), i64::MAX.to_string(), None);
    let incr = build_command(vec![
        RedisDeserializationTypes::BulkString("INCR".to_string()),
        RedisDeserializationTypes::BulkString("New".to_string()),
    ]);
    assert_eq!(execute_command(&incr, &mut redis), None);
}

#[test]
fn decrement_of_a_missing_key_sets_zero() {
    let mut redis = setup();
    let response = execute_incr_or_decr(&mut redis, "New".to_string(), ArithmeticCommand::DECR);
    assert_eq!(response, "+OK\r\n");
    assert_eq!(execute_get(&mut redis, "New".to_string()), "+0\r\n");
    execute_incr_or_decr(&mut redis, "New".to_string(), ArithmeticCommand::DECR);
    assert_eq!(execute_get(&mut redis, "New".to_string()), "+-1\r\n");
}

#[test]
fn config_replies_with_its_fixed_text() {
    let mut redis = setup();
    let response = run(
        &build_command(vec![RedisDeserializationTypes::BulkString("CONFIG".to_string())]),
        &mut redis,
    );
    assert_eq!(
        response,
        "*2\r\n$4\r\nsave\r\n$23\r\n3600 1 300 100 60 10000\r\n*2\r\n$10\r\nappendonly\r\n$2\r\nno\r\n"
    );
}

#[test]
fn non_array_command_is_invalid() {
    let mut redis = setup();
    let response = run(&RedisDeserializationTypes::BulkString("PING".to_string()), &mut redis);
    assert_eq!(response, "-Invalid Command\r\n");
}

#[test]
fn push_with_non_bulk_element_is_invalid() {
    let mut redis = setup();
    let response = run(
        &build_command(vec![
            RedisDeserializationTypes::BulkString("RPUSH".to_string()),
            RedisDeserializationTypes::BulkString("array".to_string()),
            RedisDeserializationTypes::Integer(3),
        ]),
        &mut redis,
    );
    assert_eq!(response, "-Invalid Command\r\n");
}

#[test]
fn exist_ignores_non_bulk_arguments() {
    let mut redis = setup();
    execute_set(&mut redis, "Name".to_string(), "Felipe".to_string(), None);
    let response = run(
        &build_command(vec![
            RedisDeserializationTypes::BulkString("EXIST".to_string()),
            RedisDeserializationTypes::Integer(1),
            RedisDeserializationTypes::BulkString("Name".to_string()),
            RedisDeserializationTypes::BulkString("Name".to_string()),
        ]),
        &mut redis,
    );
    assert_eq!(response, "+2\r\n");
}

#[test]
fn expired_key_does_not_exist() {
    let mut redis = setup();
    let t0 = Instant { secs: 1_000, nanos: 0 };
    let set = set_command("Name".to_string(), "Felipe".to_string(), expiry("EAXT", "1000".to_string()));
    assert_eq!(execute_command_at(&set, &mut redis, t0), "+OK\r\n");
    let exist = build_command(vec![
        RedisDeserializationTypes::BulkString("EXIST".to_string()),
        RedisDeserializationTypes::BulkString("Name".to_string()),
    ]);
    assert_eq!(execute_command_at(&exist, &mut redis, t0), "+0\r\n");
}

#[test]
fn expiry_is_kept_by_the_chrono_timestamp() {
    let t = Utc.timestamp_opt(1_000_000, 0).unwrap() + ChronoDuration::seconds(5);
    assert_eq!(instant_of(t), Instant { secs: 1_000_005, nanos: 0 });
}

#[test]
fn run_command_answers_none_where_the_command_aborts() {
    let mut redis = setup();
    let now = Instant { secs: 1_000, nanos: 0 };
    let set = set_command("Name".to_string(), "Felipe".to_string(), expiry("EX", "soon".to_string()));
    assert_eq!(run_command(&set, &mut redis, now), None);
    let ping = build_command(vec![RedisDeserializationTypes::BulkString("PING".to_string())]);
    assert_eq!(run_command(&ping, &mut redis, now), Some("+PONG\r\n".to_string()));
}

#[test]
fn chrono_range_is_the_stated_one() {
    assert!(Utc.timestamp_opt(-8_334_601_228_800, 0).single().is_some());
    assert!(Utc.timestamp_opt(-8_334_601_228_801, 0).single().is_none());
    assert!(Utc.timestamp_opt(8_210_266_876_799, 0).single().is_some());
    assert!(Utc.timestamp_opt(8_210_266_876_800, 0).single().is_none());
}

#[test]
fn eaxt_at_the_edges_of_the_range() {
    let mut redis = setup();
    let now = Instant { secs: 1_000, nanos: 0 };
    let set = set_command("k".to_string(), "v".to_string(), expiry("EAXT", "8210266876799".to_string()));
    assert_eq!(execute_command_at(&set, &mut redis, now), "+OK\r\n");
    let beyond = set_command("k".to_string(), "v".to_string(), expiry("EAXT", "8210266876800".to_string()));
    assert_eq!(run_command(&beyond, &mut redis, now), None);
}

#[test]
fn px_carries_milliseconds_into_seconds() {
    let mut redis = setup();
    let now = Instant { secs: 1_000, nanos: 700_000_000 };
    let set = set_command("k".to_string(), "v".to_string(), expiry("PX", "500".to_string()));
    assert_eq!(execute_command_at(&set, &mut redis, now), "+OK\r\n");
    let get = get_command("k".to_string());
    assert_eq!(execute_command_at(&get, &mut redis, Instant { secs: 1_001, nanos: 199_999_999 }), "+v\r\n");
    assert_eq!(execute_command_at(&get, &mut redis, Instant { secs: 1_001, nanos: 200_000_000 }), "+NONE\r\n");
}

#[test]
fn a_key_set_with_ex_is_readable_right_after() {
    let mut redis = setup();
    let now = Instant { secs: 1_000, nanos: 5 };
    let set = set_command("k".to_string(), "v".to_string(), expiry("EX", "1".to_string()));
    assert_eq!(execute_command_at(&set, &mut redis, now), "+OK\r\n");
    assert_eq!(execute_command_at(&get_command("k".to_string()), &mut redis, now), "+v\r\n");
}

#[test]
fn expiry_past_the_range_aborts() {
    let mut redis = setup();
    let now = Instant { secs: 8_210_266_876_798, nanos: 0 };
    let fits = set_command("k".to_string(), "v".to_string(), expiry("EX", "1".to_string()));
    assert_eq!(run_command(&fits, &mut redis, now), Some("+OK\r\n".to_string()));
    let past = set_command("k".to_string(), "v".to_string(), expiry("EX", "2".to_string()));
    assert_eq!(run_command(&past, &mut redis, now), None);
}

#[test]
fn px_with_a_negative_delay_borrows_from_the_seconds() {
    let mut redis = setup();
    let now = Instant { secs: 1_000, nanos: 100_000_000 };
    let set = set_command("k".to_string(), "v".to_string(), expiry("PX", "-200".to_string()));
    assert_eq!(execute_command_at(&set, &mut redis, now), "+OK\r\n");
    let get = get_command("k".to_string());
    assert_eq!(execute_command_at(&get, &mut redis, Instant { secs: 999, nanos: 899_999_999 }), "+v\r\n");
    assert_eq!(execute_command_at(&get, &mut redis, Instant { secs: 999, nanos: 900_000_000 }), "+NONE\r\n");
}
