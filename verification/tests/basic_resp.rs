use rust_playground::{deserialize_array, deserialize_bulk_string, deserialize_flat_command, Types};

#[test]
fn lib_it_should_de_serialize_simple_string() {
    let mut command = "+OK\r\n";

    let result = deserialize_flat_command(&mut command);
    assert_eq!(result, Types::String("OK".to_string()));
    assert_eq!(command, "");
}

#[test]
fn lib_it_should_de_serialize_error_message() {
    let mut command = "-Error message\r\n";

    let result = deserialize_flat_command(&mut command);
    assert_eq!(result, Types::String("Error message".to_string()));
    assert_eq!(command, "");
}

#[test]
fn lib_it_should_de_serialize_number_positive() {
    let mut command = ":+1000\r\n";

    let result = deserialize_flat_command(&mut command);
    assert_eq!(result, Types::Number(1000));
    assert_eq!(command, "");
}

#[test]
fn lib_it_should_de_serialize_number_negative() {
    let mut command = ":-1000\r\n";

    let result = deserialize_flat_command(&mut command);
    assert_eq!(result, Types::Number(-1000));
    assert_eq!(command, "");
}

#[test]
fn lib_it_should_de_serialize_number_0() {
    let mut command = ":0\r\n";

    let result = deserialize_flat_command(&mut command);
    assert_eq!(result, Types::Number(0));
    assert_eq!(command, "");
}

#[test]
fn lib_it_should_de_serialize_return_remaining_command() {
    let mut command = ":0\r\n$4\r\necho\r\n";

    let result = deserialize_flat_command(&mut command);
    assert_eq!(result, Types::Number(0));
    assert_eq!(command, "$4\r\necho\r\n");
}

#[test]
fn lib_it_should_de_serialize_return_remaining_command_2() {
    let mut command = "+hello\r\n$4\r\necho\r\n+echo\r\n-Error Message\r\n";

    let result = deserialize_flat_command(&mut command);
    assert_eq!(result, Types::String("hello".to_string()));
    assert_eq!(command, "$4\r\necho\r\n+echo\r\n-Error Message\r\n");
}

#[test]
fn lib_it_should_deserialize_bulk_string() {
    let mut command = "$4\r\nping\r\n";

    let result = deserialize_bulk_string(&mut command);
    assert_eq!(result, Some("ping".to_string()));
    assert_eq!(command, "");
}

#[test]
fn lib_it_should_deserialize_bulk_string_remaining_command() {
    let mut command = "$4\r\nping\r\n:123\r\n";

    let result = deserialize_bulk_string(&mut command);
    assert_eq!(result, Some("ping".to_string()));
    assert_eq!(command, ":123\r\n");
}

#[test]
fn lib_it_should_deserialize_bulk_string_remaining_command_2_with_special_chars() {
    let mut command = "$18\r\nping \r\nhello world\r\n$7\r\n1234567\r\n:4\r\n";

    let result = deserialize_bulk_string(&mut command);
    assert_eq!(result, Some("ping \r\nhello world".to_string()));
    assert_eq!(command, "$7\r\n1234567\r\n:4\r\n");
}

#[test]
fn lib_it_should_deserialize_bulk_string_null_elements() {
    let mut command = "$-1\r\n";
    let result = deserialize_bulk_string(&mut command);
    assert_eq!(result, None);
    assert_eq!(command, "");
}

#[test]
fn lib_it_should_deserialize_bulk_string_empty() {
    let mut command = "$0\r\n\r\n";
    let result = deserialize_bulk_string(&mut command);
    assert_eq!(result, Some("".to_string()));
    assert_eq!(command, "");
}

#[test]
fn lib_it_should_deserialize_array_nested_arr() {
    let mut command =
        "*5\r\n+echo\r\n:11\r\n$4\r\n1234\r\n*2\r\n$4\r\n1234\r\n:11\r\n$4\r\nlast\r\n";
    let result = deserialize_array(&mut command);
    assert_eq!(
        result,
        Some(Vec::from([
            Types::String("echo".to_string()),
            Types::Number(11),
            Types::String("1234".to_string()),
            Types::Array(Box::new(vec![
                Types::String("1234".to_string()),
                Types::Number(11)
            ])),
            Types::String("last".to_string())
        ]))
    );
    assert_eq!(command, "");
}

#[test]
fn lib_it_should_deserialize_array() {
    let mut command = "*4\r\n+echo\r\n:11\r\n$4\r\n1234\r\n";
    let result = deserialize_array(&mut command);
    assert_eq!(
        result,
        Some(vec![
            Types::String("echo".to_string()),
            Types::Number(11),
            Types::String("1234".to_string()),
        ])
    );
    assert_eq!(command, "");
}

#[test]
fn lib_it_should_deserialize_array_0_elements() {
    let mut command = "*0\r\n";
    let result = deserialize_array(&mut command);
    assert_eq!(result, Some(Vec::new()));
    assert_eq!(command, "");
}

#[test]
fn lib_it_should_deserialize_array_null() {
    let mut command = "*-1\r\n";
    let result = deserialize_array(&mut command);
    assert_eq!(result, None);
    assert_eq!(command, "");
}

#[test]
fn lib_it_should_deserialize_array_with_empty_bulk_string() {
    let mut command = "*2\r\n$0\r\n\r\n+OK\r\n";
    let result = deserialize_array(&mut command);
    assert_eq!(
        result,
        Some(vec![
            Types::String("".to_string()),
            Types::String("OK".to_string())
        ])
    );
    assert_eq!(command, "");
}

#[test]
fn lib_array_refuses_unmarked_elements() {
    assert!(rust_playground::basic::array_refused("*2\r\nhello\r\n"));
    assert!(!rust_playground::basic::array_refused("*1\r\n:1\r\n"));
}
