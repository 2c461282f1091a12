use redis_starter_rust::parser::{ParseError, Parser, RESPOutput};

#[test]
fn parse_until_crlf_success() {
    let input = vec!["hello world\r\n".as_bytes(), "5\r\nhello\r\n".as_bytes()];
    let expected = vec![
        ("hello world".as_bytes(), "".as_bytes()),
        ("5".as_bytes(), "hello\r\n".as_bytes()),
    ];

    for (index, inp) in input.iter().enumerate() {
        let result = Parser::parse_until_crlf(*inp);

        match result {
            Ok(res) => {
                assert_eq!(res, expected[index]);
            }
            Err(e) => panic!("{:?}", e),
        }
    }
}

#[test]
fn parse_until_crlf_error() {
    let input = "hello world".as_bytes();
    let expected = ParseError::CRLFNotFound;

    let result = Parser::parse_until_crlf(input);
    match result {
        Ok(_) => panic!(),
        Err(e) => assert_eq!(e, expected),
    }
}

#[test]
fn parse_simple_string_success() {
    let input = "hello world\r\n".as_bytes();
    let expected = (
        RESPOutput::SimpleString(String::from("hello world")),
        "".as_bytes(),
    );

    let result = Parser::parse_simple_string(input);
    match result {
        Ok(res) => assert_eq!(res, expected),
        Err(e) => panic!("{:?}", e),
    }
}

#[test]
fn parse_error_success() {
    let input = "error\r\n".as_bytes();
    let expected = (RESPOutput::Error(String::from("error")), "".as_bytes());

    let result = Parser::parse_error(input);
    match result {
        Ok(res) => assert_eq!(res, expected),
        Err(e) => panic!("{:?}", e),
    }
}

#[test]
fn parse_bulk_string_success() {
    let input = vec![
        "11\r\nhello world\r\n".as_bytes(),
        "0\r\n\r\n".as_bytes(),
        "-1\r\n".as_bytes(),
    ];

    let expected = vec![
        (
            (RESPOutput::BulkString(String::from("hello world"))),
            "".as_bytes(),
        ),
        ((RESPOutput::BulkString(String::from("")), "".as_bytes())),
        ((RESPOutput::Null, "".as_bytes())),
    ];

    for (index, inp) in input.iter().enumerate() {
        let result = Parser::parse_bulk_string(inp);
        match result {
            Ok(res) => assert_eq!(res, expected[index]),
            Err(e) => panic!("{:?}", e),
        }
    }
}

#[test]
fn parse_bulk_string_error() {
    let input = vec!["11\r\nhello\r\n".as_bytes(), "3\r\nhello\r\n".as_bytes()];
    let expected = vec![ParseError::IncompleteInput, ParseError::InvalidInput];

    for (index, inp) in input.iter().enumerate() {
        let result = Parser::parse_bulk_string(inp);
        match result {
            Ok(_) => panic!(),
            Err(e) => assert_eq!(e, expected[index]),
        }
    }
}

#[test]
fn parse_integer_success() {
    let input = "1234\r\n".as_bytes();
    let expected = (RESPOutput::Integer(1234), "".as_bytes());

    let result = Parser::parse_integer(input);
    match result {
        Ok(res) => assert_eq!(res, expected),
        Err(e) => panic!("{:?}", e),
    }
}

#[test]
fn parse_integer_error() {
    let input = "1a\r\n".as_bytes();
    let expected = ParseError::InvalidInput;

    let result = Parser::parse_integer(input);
    match result {
        Ok(_) => panic!(),
        Err(e) => assert_eq!(e, expected),
    }
}

#[test]
fn parse_array_success() {
    let input = vec![
        "2\r\n$5\r\nhello\r\n$5\r\nworld\r\n".as_bytes(),
        "3\r\n:1000\r\n+hello world\r\n-got error\r\n".as_bytes(),
        "0\r\n".as_bytes(),
        "-1\r\n".as_bytes(),
        "2\r\n*3\r\n:1\r\n:2\r\n:3\r\n*2\r\n$5\r\nhello\r\n$5\r\nworld\r\n".as_bytes(),
    ];
    let expected = vec![
        (
            RESPOutput::Array(vec![
                RESPOutput::BulkString(String::from("hello")),
                RESPOutput::BulkString(String::from("world")),
            ]),
            "".as_bytes(),
        ),
        (
            RESPOutput::Array(vec![
                RESPOutput::Integer(1000),
                RESPOutput::SimpleString(String::from("hello world")),
                RESPOutput::Error(String::from("got error")),
            ]),
            "".as_bytes(),
        ),
        (RESPOutput::Array(vec![]), "".as_bytes()),
        (RESPOutput::Null, "".as_bytes()),
        (
            RESPOutput::Array(vec![
                RESPOutput::Array(vec![
                    RESPOutput::Integer(1),
                    RESPOutput::Integer(2),
                    RESPOutput::Integer(3),
                ]),
                RESPOutput::Array(vec![
                    RESPOutput::BulkString(String::from("hello")),
                    RESPOutput::BulkString(String::from("world")),
                ]),
            ]),
            "".as_bytes(),
        ),
    ];

    for (index, inp) in input.iter().enumerate() {
        let result = Parser::parse_array(*inp);
        match result {
            Ok(res) => assert_eq!(res, expected[index]),
            Err(e) => panic!("{:?}", e),
        }
    }
}

#[test]
fn parse_array_error() {
    let input = vec![
        "2\r\n$5\r\nhello\r\n".as_bytes(),
        "3\r\n:1000\r\n+hello world\r\n$5\r\nhello world\r\n".as_bytes(),
        "2\r\n*3\r\n:1\r\n:2\r\n:3\r\n*2\r\n$5\r\nhello\r\n$5\r\nworld".as_bytes(),
    ];
    let expected = vec![
        ParseError::IncompleteInput,
        ParseError::InvalidInput,
        ParseError::CRLFNotFound,
    ];

    for (index, inp) in input.iter().enumerate() {
        let result = Parser::parse_array(*inp);
        match result {
            Ok(_) => panic!(),
            Err(e) => assert_eq!(e, expected[index]),
        }
    }
}

#[test]
fn parse_resp_incomplete_input() {
    let input = "*2\r\n:1\r\n".as_bytes();
    let expected = ParseError::IncompleteInput;

    let result = Parser::parse_resp(input);
    match result {
        Ok(_) => panic!(),
        Err(e) => assert_eq!(e, expected),
    }
}

#[test]
fn parse_resp_unrecognised_input() {
    let input = "5\r\nhello\r\n".as_bytes();
    let expected = ParseError::UnrecognisedSymbol;

    let result = Parser::parse_resp(input);
    match result {
        Ok(_) => panic!(),
        Err(e) => assert_eq!(e, expected),
    }
}

#[test]
fn parse_resp_simple_string() {
    let input = "+hello world\r\n".as_bytes();
    let expected = (
        RESPOutput::SimpleString(String::from("hello world")),
        "".as_bytes(),
    );

    let result = Parser::parse_resp(input);
    match result {
        Ok(res) => assert_eq!(res, expected),
        Err(e) => panic!("{:?}", e),
    }
}

#[test]
fn parse_resp_error() {
    let input = "-error\r\n".as_bytes();
    let expected = (RESPOutput::Error(String::from("error")), "".as_bytes());

    let result = Parser::parse_resp(input);
    match result {
        Ok(res) => assert_eq!(res, expected),
        Err(e) => panic!("{:?}", e),
    }
}

#[test]
fn parse_resp_bulk_string_success() {
    let input = vec![
        "$11\r\nhello world\r\n".as_bytes(),
        "$0\r\n\r\n".as_bytes(),
        "$-1\r\n".as_bytes(),
    ];

    let expected = vec![
        (
            (RESPOutput::BulkString(String::from("hello world"))),
            "".as_bytes(),
        ),
        ((RESPOutput::BulkString(String::from("")), "".as_bytes())),
        ((RESPOutput::Null, "".as_bytes())),
    ];

    for (index, inp) in input.iter().enumerate() {
        let result = Parser::parse_resp(inp);
        match result {
            Ok(res) => assert_eq!(res, expected[index]),
            Err(e) => panic!("{:?}", e),
        }
    }
}

#[test]
fn parse_resp_bulk_string_error() {
    let input = vec!["$11\r\nhello\r\n".as_bytes(), "$3\r\nhello\r\n".as_bytes()];
    let expected = vec![ParseError::IncompleteInput, ParseError::InvalidInput];

    for (index, inp) in input.iter().enumerate() {
        let result = Parser::parse_resp(inp);
        match result {
            Ok(_) => panic!(),
            Err(e) => assert_eq!(e, expected[index]),
        }
    }
}

#[test]
fn parse_resp_integer_success() {
    let input = ":1234\r\n".as_bytes();
    let expected = (RESPOutput::Integer(1234), "".as_bytes());

    let result = Parser::parse_resp(input);
    match result {
        Ok(res) => assert_eq!(res, expected),
        Err(e) => panic!("{:?}", e),
    }
}

#[test]
fn parse_resp_integer_error() {
    let input = ":1a\r\n".as_bytes();
    let expected = ParseError::InvalidInput;

    let result = Parser::parse_resp(input);
    match result {
        Ok(_) => panic!(),
        Err(e) => assert_eq!(e, expected),
    }
}

#[test]
fn parse_resp_array_success() {
    let input = vec![
        "*2\r\n$5\r\nhello\r\n$5\r\nworld\r\n".as_bytes(),
        "*3\r\n:1000\r\n+hello world\r\n-got error\r\n".as_bytes(),
        "*0\r\n".as_bytes(),
        "*-1\r\n".as_bytes(),
        "*2\r\n*3\r\n:1\r\n:2\r\n:3\r\n*2\r\n$5\r\nhello\r\n$5\r\nworld\r\n".as_bytes(),
    ];
    let expected = vec![
        (
            RESPOutput::Array(vec![
                RESPOutput::BulkString(String::from("hello")),
                RESPOutput::BulkString(String::from("world")),
            ]),
            "".as_bytes(),
        ),
        (
            RESPOutput::Array(vec![
                RESPOutput::Integer(1000),
                RESPOutput::SimpleString(String::from("hello world")),
                RESPOutput::Error(String::from("got error")),
            ]),
            "".as_bytes(),
        ),
        (RESPOutput::Array(vec![]), "".as_bytes()),
        (RESPOutput::Null, "".as_bytes()),
        (
            RESPOutput::Array(vec![
                RESPOutput::Array(vec![
                    RESPOutput::Integer(1),
                    RESPOutput::Integer(2),
                    RESPOutput::Integer(3),
                ]),
                RESPOutput::Array(vec![
                    RESPOutput::BulkString(String::from("hello")),
                    RESPOutput::BulkString(String::from("world")),
                ]),
            ]),
            "".as_bytes(),
        ),
    ];

    for (index, inp) in input.iter().enumerate() {
        let result = Parser::parse_resp(*inp);
        match result {
            Ok(res) => assert_eq!(res, expected[index]),
            Err(e) => panic!("{:?}", e),
        }
    }
}

#[test]
fn parse_resp_array_error() {
    let input = vec![
        "*2\r\n$5\r\nhello\r\n".as_bytes(),
        "*3\r\n:1000\r\n+hello world\r\n$5\r\nhello world\r\n".as_bytes(),
        "*2\r\n*3\r\n:1\r\n:2\r\n:3\r\n*2\r\n$5\r\nhello\r\n$5\r\nworld".as_bytes(),
    ];
    let expected = vec![
        ParseError::IncompleteInput,
        ParseError::InvalidInput,
        ParseError::CRLFNotFound,
    ];

    for (index, inp) in input.iter().enumerate() {
        let result = Parser::parse_resp(*inp);
        match result {
            Ok(_) => panic!(),
            Err(e) => assert_eq!(e, expected[index]),
        }
    }
}

#[test]
fn parse_resp_keeps_bytes_after_value() {
    let result = Parser::parse_resp("+OK\r\n:7\r\n".as_bytes()).unwrap();
    assert_eq!(result, (RESPOutput::SimpleString(String::from("OK")), ":7\r\n".as_bytes()));
}

#[test]
fn parse_resp_null_bulk_string_in_array() {
    let result = Parser::parse_resp("*2\r\n$-1\r\n:5\r\n".as_bytes()).unwrap();
    assert_eq!(
        result,
        (RESPOutput::Array(vec![RESPOutput::Null, RESPOutput::Integer(5)]), "".as_bytes())
    );
}

#[test]
fn parse_resp_empty_input_is_incomplete() {
    assert_eq!(Parser::parse_resp("".as_bytes()), Err(ParseError::IncompleteInput));
}

#[test]
fn parse_until_crlf_empty_input() {
    assert_eq!(Parser::parse_until_crlf("".as_bytes()), Err(ParseError::CRLFNotFound));
    assert_eq!(Parser::parse_until_crlf("\r".as_bytes()), Err(ParseError::CRLFNotFound));
}

#[test]
fn parse_until_crlf_stops_at_first_pair() {
    let result = Parser::parse_until_crlf("a\r\rb\r\nc\r\n".as_bytes()).unwrap();
    assert_eq!(result, ("a\r\rb".as_bytes(), "c\r\n".as_bytes()));
}

#[test]
fn parse_integer_limits() {
    assert_eq!(
        Parser::parse_resp(":-9223372036854775808\r\n".as_bytes()),
        Ok((RESPOutput::Integer(i64::MIN), "".as_bytes()))
    );
    assert_eq!(
        Parser::parse_resp(":9223372036854775807\r\n".as_bytes()),
        Ok((RESPOutput::Integer(i64::MAX), "".as_bytes()))
    );
    assert_eq!(
        Parser::parse_resp(":9223372036854775808\r\n".as_bytes()),
        Err(ParseError::InvalidInput)
    );
    assert_eq!(
        Parser::parse_resp(":+12\r\n".as_bytes()),
        Ok((RESPOutput::Integer(12), "".as_bytes()))
    );
    assert_eq!(Parser::parse_resp(":-\r\n".as_bytes()), Err(ParseError::InvalidInput));
    assert_eq!(Parser::parse_resp(":\r\n".as_bytes()), Err(ParseError::InvalidInput));
}

#[test]
fn parse_bulk_string_bad_length_is_invalid() {
    assert_eq!(Parser::parse_resp("$x\r\nab\r\n".as_bytes()), Err(ParseError::InvalidInput));
    assert_eq!(Parser::parse_resp("$x\r\nab".as_bytes()), Err(ParseError::CRLFNotFound));
}

#[test]
fn parse_array_bad_count_is_invalid() {
    assert_eq!(Parser::parse_resp("*-2\r\n".as_bytes()), Err(ParseError::InvalidInput));
    assert_eq!(Parser::parse_resp("*a\r\n".as_bytes()), Err(ParseError::InvalidInput));
}

#[test]
fn parse_bulk_string_invalid_utf8_is_replaced() {
    let input: Vec<u8> = vec![b'$', b'2', b'\r', b'\n', b'a', 0xff, b'\r', b'\n'];
    let result = Parser::parse_resp(&input).unwrap();
    assert_eq!(result, (RESPOutput::BulkString(String::from("a\u{fffd}")), "".as_bytes()));
}

#[test]
fn parse_bulk_string_multibyte_length_counts_bytes() {
    let result = Parser::parse_resp("$2\r\n\u{e9}\r\n".as_bytes()).unwrap();
    assert_eq!(result, (RESPOutput::BulkString(String::from("\u{e9}")), "".as_bytes()));
}

fn nested_arrays(levels: usize) -> Vec<u8> {
    let mut bytes: Vec<u8> = Vec::new();
    for _ in 0..levels {
        bytes.extend_from_slice("*1\r\n".as_bytes());
    }
    bytes.extend_from_slice(":1\r\n".as_bytes());
    bytes
}

#[test]
fn parse_resp_nesting_limit() {
    assert!(Parser::parse_resp(&nested_arrays(64)).is_ok());
    assert_eq!(Parser::parse_resp(&nested_arrays(65)), Err(ParseError::InvalidInput));
    assert_eq!(Parser::parse_resp(&nested_arrays(100000)), Err(ParseError::InvalidInput));
}

#[test]
fn every_strict_prefix_needs_more_bytes() {
    let inputs = vec![
        "+hello world\r\n",
        "-got error\r\n",
        "$11\r\nhello world\r\n",
        "$0\r\n\r\n",
        "$-1\r\n",
        ":-1000\r\n",
        "*0\r\n",
        "*3\r\n$4\r\nECHO\r\n$5\r\nhello\r\n$5\r\nworld\r\n",
        "*2\r\n*3\r\n:1\r\n:2\r\n:3\r\n*2\r\n$5\r\nhello\r\n$-1\r\n",
    ];
    for input in inputs {
        let bytes = input.as_bytes();
        assert!(Parser::parse_resp(bytes).is_ok());
        for k in 0..bytes.len() {
            match Parser::parse_resp(&bytes[..k]) {
                Err(ParseError::IncompleteInput) | Err(ParseError::CRLFNotFound) => {}
                other => panic!("prefix {:?} of {:?} gave {:?}", &bytes[..k], input, other),
            }
        }
    }
}
