use redis_starter_rust::parser::{Parser, RESPOutput};
use redis_starter_rust::response_helper::{
    encode, format_string_response, send_bulk_string_response, send_error_response,
    send_pong_response,
};

#[test]
fn send_bulk_string_response_return_non_null_if_input_is_not_null() {
    let input = "hello";
    let written = send_bulk_string_response(Some(input));

    assert_eq!(written, "$5\r\nhello\r\n".as_bytes());
}

#[test]
fn send_bulk_string_response_return_null_if_input_is_null() {
    let written = send_bulk_string_response(None);

    assert_eq!(written, "$-1\r\n".as_bytes());
}

#[test]
fn pong_and_simple_string_replies() {
    assert_eq!(send_pong_response(), "+PONG\r\n");
    assert_eq!(format_string_response("OK"), "+OK\r\n");
    assert_eq!(send_error_response("Unrecognised command"), "-Unrecognised command\r\n".as_bytes());
}

#[test]
fn encode_each_kind() {
    assert_eq!(encode(&RESPOutput::Integer(-42)), ":-42\r\n".as_bytes());
    assert_eq!(encode(&RESPOutput::Integer(i64::MIN)), ":-9223372036854775808\r\n".as_bytes());
    assert_eq!(encode(&RESPOutput::Error(String::from("bad"))), "-bad\r\n".as_bytes());
    assert_eq!(encode(&RESPOutput::Array(vec![])), "*0\r\n".as_bytes());
    assert_eq!(encode(&RESPOutput::BulkString(String::from("\u{e9}"))), "$2\r\n\u{e9}\r\n".as_bytes());
}

#[test]
fn encode_of_decode_gives_back_the_bytes() {
    let inputs = vec![
        "+hello world\r\n",
        "-got error\r\n",
        "$11\r\nhello world\r\n",
        "$0\r\n\r\n",
        ":1000\r\n",
        ":-7\r\n",
        "*0\r\n",
        "*2\r\n*3\r\n:1\r\n:2\r\n:3\r\n*2\r\n$5\r\nhello\r\n$5\r\nworld\r\n",
    ];
    for input in inputs {
        let (value, rest) = Parser::parse_resp(input.as_bytes()).unwrap();
        assert!(rest.is_empty());
        assert_eq!(encode(&value), input.as_bytes());
    }
}
