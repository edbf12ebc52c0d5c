use rust_playground::modules::deserialize::{
    array_aborts, bulk_aborts, deserialize, deserialize_aborts, deserialize_array, deserialize_bulk_string,
    deserialize_flat_command, flat_aborts,
};
use rust_playground::modules::types::RedisDeserializationTypes;

#[test]
fn deserialize_it_should_de_serialize_simple_string() {
    let mut command = "+OK\r\n";

    let result = deserialize_flat_command(&mut command);
    assert_eq!(
        result,
        RedisDeserializationTypes::SimpleString("OK".to_string())
    );
    assert_eq!(command, "");
}

#[test]
fn deserialize_it_should_de_serialize_error_message() {
    let mut command = "-Error message\r\n";

    let result = deserialize_flat_command(&mut command);
    assert_eq!(
        result,
        RedisDeserializationTypes::ErrorMessage("Error message".to_string())
    );
    assert_eq!(command, "");
}

#[test]
fn deserialize_it_should_de_serialize_number_positive() {
    let mut command = ":+1000\r\n";

    let result = deserialize_flat_command(&mut command);
    assert_eq!(result, RedisDeserializationTypes::Integer(1000));
    assert_eq!(command, "");
}

#[test]
fn deserialize_it_should_de_serialize_number_negative() {
    let mut command = ":-1000\r\n";

    let result = deserialize_flat_command(&mut command);
    assert_eq!(result, RedisDeserializationTypes::Integer(-1000));
    assert_eq!(command, "");
}

#[test]
fn deserialize_it_should_de_serialize_number_0() {
    let mut command = ":0\r\n";

    let result = deserialize_flat_command(&mut command);
    assert_eq!(result, RedisDeserializationTypes::Integer(0));
    assert_eq!(command, "");
}

#[test]
fn deserialize_it_should_de_serialize_return_remaining_command() {
    let mut command = ":0\r\n$4\r\necho\r\n";

    let result = deserialize_flat_command(&mut command);
    assert_eq!(result, RedisDeserializationTypes::Integer(0));
    assert_eq!(command, "$4\r\necho\r\n");
}

#[test]
fn deserialize_it_should_de_serialize_return_remaining_command_2() {
    let mut command = "+hello\r\n$4\r\necho\r\n+echo\r\n-Error Message\r\n";

    let result = deserialize_flat_command(&mut command);
    assert_eq!(
        result,
        RedisDeserializationTypes::SimpleString("hello".to_string())
    );
    assert_eq!(command, "$4\r\necho\r\n+echo\r\n-Error Message\r\n");
}

#[test]
fn deserialize_it_should_deserialize_bulk_string() {
    let mut command = "$4\r\nping\r\n";

    let result = deserialize_bulk_string(&mut command);
    assert_eq!(
        result,
        Some(RedisDeserializationTypes::BulkString("ping".to_string()))
    );
    assert_eq!(command, "");
}

#[test]
fn deserialize_it_should_deserialize_bulk_string_remaining_command() {
    let mut command = "$4\r\nping\r\n:123\r\n";

    let result = deserialize_bulk_string(&mut command);
    assert_eq!(
        result,
        Some(RedisDeserializationTypes::BulkString("ping".to_string()))
    );
    assert_eq!(command, ":123\r\n");
}

#[test]
fn deserialize_it_should_deserialize_bulk_string_remaining_command_2_with_special_chars() {
    let mut command = "$18\r\nping \r\nhello world\r\n$7\r\n1234567\r\n:4\r\n";

    let result = deserialize_bulk_string(&mut command);
    assert_eq!(
        result,
        Some(RedisDeserializationTypes::BulkString(
            "ping \r\nhello world".to_string()
        ))
    );
    assert_eq!(command, "$7\r\n1234567\r\n:4\r\n");
}

#[test]
fn deserialize_it_should_deserialize_bulk_string_null_elements() {
    let mut command = "$-1\r\n";
    let result = deserialize_bulk_string(&mut command);
    assert_eq!(result, None);
    assert_eq!(command, "");
}

#[test]
fn deserialize_it_should_deserialize_bulk_string_empty() {
    let mut command = "$0\r\n\r\n";
    let result = deserialize_bulk_string(&mut command);
    assert_eq!(
        result,
        Some(RedisDeserializationTypes::BulkString("".to_string()))
    );
    assert_eq!(command, "");
}

#[test]
fn deserialize_it_should_deserialize_array_nested_arr() {
    let mut command =
        "*5\r\n+echo\r\n:11\r\n$4\r\n1234\r\n*2\r\n$4\r\n1234\r\n:11\r\n$4\r\nlast\r\n";
    let result = deserialize_array(&mut command);
    assert_eq!(
        result,
        Some(Vec::from([
            RedisDeserializationTypes::SimpleString("echo".to_string()),
            RedisDeserializationTypes::Integer(11),
            RedisDeserializationTypes::BulkString("1234".to_string()),
            RedisDeserializationTypes::Array(Box::new(vec![
                RedisDeserializationTypes::BulkString("1234".to_string()),
                RedisDeserializationTypes::Integer(11)
            ])),
            RedisDeserializationTypes::BulkString("last".to_string())
        ]))
    );
    assert_eq!(command, "");
}

#[test]
fn deserialize_it_should_deserialize_array() {
    let mut command = "*4\r\n+echo\r\n:11\r\n$4\r\n1234\r\n";
    let result = deserialize_array(&mut command);
    assert_eq!(
        result,
        Some(vec![
            RedisDeserializationTypes::SimpleString("echo".to_string()),
            RedisDeserializationTypes::Integer(11),
            RedisDeserializationTypes::BulkString("1234".to_string()),
        ])
    );
    assert_eq!(command, "");
}

#[test]
fn deserialize_it_should_deserialize_array_0_elements() {
    let mut command = "*0\r\n";
    let result = deserialize_array(&mut command);
    assert_eq!(result, Some(Vec::new()));
    assert_eq!(command, "");
}

#[test]
fn deserialize_it_should_deserialize_array_null() {
    let mut command = "*-1\r\n";
    let result = deserialize_array(&mut command);
    assert_eq!(result, None);
    assert_eq!(command, "");
}

#[test]
fn deserialize_it_should_deserialize_array_with_empty_bulk_string() {
    let mut command = "*2\r\n$0\r\n\r\n+OK\r\n";
    let result = deserialize_array(&mut command);
    assert_eq!(
        result,
        Some(vec![
            RedisDeserializationTypes::BulkString("".to_string()),
            RedisDeserializationTypes::SimpleString("OK".to_string())
        ])
    );
    assert_eq!(command, "");
}


#[test]
fn malformed_frames_are_refused() {
    assert!(flat_aborts(""));
    assert!(flat_aborts(":\r\n"));
    assert!(flat_aborts(":12"));
    assert!(!flat_aborts(":12\r\n"));
    assert!(bulk_aborts("$4\r\npin"));
    assert!(!bulk_aborts("$4\r\nping\r\n"));
    assert!(array_aborts("*2\r\n+echo\r\n:11"));
    assert!(!array_aborts("*1\r\n:11\r\n"));
    assert!(deserialize_aborts("*2\r\n+echo\r\n:11"));
}

#[test]
fn deserialize_reads_any_value_and_leaves_the_rest() {
    let mut command = ":7\r\n+next\r\n";
    assert!(!deserialize_aborts(command));
    assert_eq!(deserialize(&mut command), Some(RedisDeserializationTypes::Integer(7)));
    assert_eq!(command, "+next\r\n");
    let mut empty = "";
    assert!(!deserialize_aborts(empty));
    assert_eq!(deserialize(&mut empty), None);
}

#[test]
fn an_unmarked_command_reads_as_nothing() {
    let mut command = "hello\r\n";
    assert!(!deserialize_aborts(command));
    assert_eq!(deserialize(&mut command), None);
    assert_eq!(command, "hello\r\n");
}

#[test]
fn an_array_skips_unmarked_elements() {
    let mut command = "*2\r\nhello\r\n";
    assert!(!array_aborts(command));
    assert_eq!(deserialize_array(&mut command), Some(vec![]));
    assert_eq!(command, "hello\r\n");
}

#[test]
fn an_encoded_value_reads_back_and_leaves_the_rest() {
    let mut command = "*3\r\n+echo\r\n*2\r\n:-7\r\n$5\r\na\r\nbc\r\n-err\r\nREST";
    let result = deserialize(&mut command);
    assert_eq!(
        result,
        Some(RedisDeserializationTypes::Array(Box::new(vec![
            RedisDeserializationTypes::SimpleString("echo".to_string()),
            RedisDeserializationTypes::Array(Box::new(vec![
                RedisDeserializationTypes::Integer(-7),
                RedisDeserializationTypes::BulkString("a\r\nbc".to_string()),
            ])),
            RedisDeserializationTypes::ErrorMessage("err".to_string()),
        ])))
    );
    assert_eq!(command, "REST");
}
