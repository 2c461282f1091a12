//! The protocol decoder: turns bytes into a typed protocol value, telling
//! "not enough bytes yet" apart from malformed input.

use vstd::prelude::*;
use vstd::utf8::{decode_utf8, valid_utf8};

use crate::decimal::{parse_signed, parse_signed_bytes, parse_unsigned, parse_unsigned_bytes, MINUS, ZERO};

verus! {

pub const CR: u8 = 13;

pub const LF: u8 = 10;

pub const SIMPLE_STRING_TAG: u8 = 43;

pub const ERROR_TAG: u8 = 45;

pub const BULK_STRING_TAG: u8 = 36;

pub const INTEGER_TAG: u8 = 58;

pub const ARRAY_TAG: u8 = 42;

/// How deeply arrays may nest before the input is refused.
pub const MAX_DEPTH: usize = 64;

/// A decoded protocol value.
#[derive(Debug, PartialEq)]
pub enum RESPOutput {
    SimpleString(String),
    Error(String),
    BulkString(String),
    Integer(i64),
    Array(Vec<RESPOutput>),
    Null,
}

/// Why a decode did not produce a value.
#[derive(Debug, PartialEq, Eq, Structural, Clone, Copy)]
pub enum ParseError {
    UnrecognisedSymbol,
    CRLFNotFound,
    IncompleteInput,
    InvalidInput,
}

/// The mathematical form of a protocol value.
pub enum RespValue {
    SimpleString(Seq<char>),
    Error(Seq<char>),
    BulkString(Seq<char>),
    Integer(int),
    Array(Seq<RespValue>),
    Null,
}

pub type ParseResult<'a> = Result<(RESPOutput, &'a [u8]), ParseError>;

pub type ParseCRLFResult<'a> = Result<(&'a [u8], &'a [u8]), ParseError>;

/// What a decode yields, over the mathematical forms.
pub type SpecParseResult = Result<(RespValue, Seq<u8>), ParseError>;

impl View for RESPOutput {
    type V = RespValue;

    open spec fn view(&self) -> RespValue
        decreases self,
    {
        match self {
            RESPOutput::SimpleString(s) => RespValue::SimpleString(s@),
            RESPOutput::Error(s) => RespValue::Error(s@),
            RESPOutput::BulkString(s) => RespValue::BulkString(s@),
            RESPOutput::Integer(n) => RespValue::Integer(*n as int),
            RESPOutput::Array(items) => RespValue::Array(views_of(items@)),
            RESPOutput::Null => RespValue::Null,
        }
    }
}

/// The mathematical forms of a sequence of values.
pub open spec fn views_of(items: Seq<RESPOutput>) -> Seq<RespValue>
    decreases items,
{
    if items.len() == 0 {
        Seq::empty()
    } else {
        views_of(items.subrange(0, items.len() - 1)).push(items[items.len() - 1].view())
    }
}

pub open spec fn view_result(r: ParseResult) -> SpecParseResult {
    match r {
        Ok((v, rest)) => Ok((v@, rest@)),
        Err(e) => Err(e),
    }
}

pub uninterp spec fn lossy_utf8(b: Seq<u8>) -> Seq<char>;

/// The text that a payload's bytes stand for.
pub open spec fn text_of(b: Seq<u8>) -> Seq<char> {
    if valid_utf8(b) {
        decode_utf8(b)
    } else {
        lossy_utf8(b)
    }
}

/// Relies on `String::from_utf8_lossy`: bytes that are valid UTF-8 decode to
/// their characters; otherwise each invalid sequence becomes U+FFFD, a
/// result that depends on the bytes alone.
#[verifier::external_body]
fn text_from_bytes(b: &[u8]) -> (r: String)
    ensures
        valid_utf8(b@) ==> r@ == decode_utf8(b@),
        !valid_utf8(b@) ==> r@ == lossy_utf8(b@),
{
    String::from_utf8_lossy(b).into_owned()
}

pub open spec fn is_crlf_at(b: Seq<u8>, i: int) -> bool {
    0 <= i && i + 1 < b.len() && b[i] == CR && b[i + 1] == LF
}

/// `i` is where the first CRLF of `b` starts.
pub open spec fn first_crlf(b: Seq<u8>, i: int) -> bool {
    is_crlf_at(b, i) && forall|j: int| 0 <= j < i ==> !#[trigger] is_crlf_at(b, j)
}

/// The bytes before the first CRLF and those after it, if `b` holds one.
pub open spec fn split_line(b: Seq<u8>) -> Option<(Seq<u8>, Seq<u8>)> {
    if exists|i: int| first_crlf(b, i) {
        let i = choose|i: int| first_crlf(b, i);
        Some((b.subrange(0, i), b.subrange(i + 2, b.len() as int)))
    } else {
        None
    }
}

pub open spec fn is_null_length(t: Seq<u8>) -> bool {
    t == seq![MINUS, (ZERO + 1) as u8]
}

pub open spec fn spec_simple_string(b: Seq<u8>) -> SpecParseResult {
    match split_line(b) {
        None => Err(ParseError::CRLFNotFound),
        Some((line, rest)) => Ok((RespValue::SimpleString(text_of(line)), rest)),
    }
}

pub open spec fn spec_error(b: Seq<u8>) -> SpecParseResult {
    match split_line(b) {
        None => Err(ParseError::CRLFNotFound),
        Some((line, rest)) => Ok((RespValue::Error(text_of(line)), rest)),
    }
}

pub open spec fn spec_integer(b: Seq<u8>) -> SpecParseResult {
    match split_line(b) {
        None => Err(ParseError::CRLFNotFound),
        Some((line, rest)) => match parse_signed(line) {
            Some(n) => Ok((RespValue::Integer(n), rest)),
            None => Err(ParseError::InvalidInput),
        },
    }
}

/// A bulk string after its tag: a length line, then a payload line whose
/// length must be the declared one.
pub open spec fn spec_bulk_string(b: Seq<u8>) -> SpecParseResult {
    match split_line(b) {
        None => Err(ParseError::CRLFNotFound),
        Some((len_line, rest)) => if is_null_length(len_line) {
            Ok((RespValue::Null, rest))
        } else {
            match split_line(rest) {
                None => Err(ParseError::CRLFNotFound),
                Some((payload, remaining)) => match parse_unsigned(len_line) {
                    None => Err(ParseError::InvalidInput),
                    Some(n) => if payload.len() < n {
                        Err(ParseError::IncompleteInput)
                    } else if payload.len() > n {
                        Err(ParseError::InvalidInput)
                    } else {
                        Ok((RespValue::BulkString(text_of(payload)), remaining))
                    },
                },
            }
        },
    }
}

/// The first `n` values of an array's body, each nested one level deeper.
pub open spec fn spec_elements(b: Seq<u8>, n: nat, depth: nat) -> Result<
    (Seq<RespValue>, Seq<u8>),
    ParseError,
>
    decreases depth, 0nat, n,
{
    if n == 0 {
        Ok((Seq::empty(), b))
    } else {
        match spec_elements(b, (n - 1) as nat, depth) {
            Err(e) => Err(e),
            Ok((items, rest)) => if depth == 0 {
                Err(ParseError::InvalidInput)
            } else {
                match spec_parse(rest, (depth - 1) as nat) {
                    Err(e) => Err(e),
                    Ok((v, remaining)) => Ok((items.push(v), remaining)),
                }
            },
        }
    }
}

/// An array after its tag: a count line, then that many values.
pub open spec fn spec_array(b: Seq<u8>, depth: nat) -> SpecParseResult
    decreases depth, 1nat, 0nat,
{
    match split_line(b) {
        None => Err(ParseError::CRLFNotFound),
        Some((count_line, rest)) => if is_null_length(count_line) {
            Ok((RespValue::Null, rest))
        } else {
            match parse_unsigned(count_line) {
                None => Err(ParseError::InvalidInput),
                Some(n) => match spec_elements(rest, n, depth) {
                    Err(e) => Err(e),
                    Ok((items, remaining)) => Ok((RespValue::Array(items), remaining)),
                },
            }
        },
    }
}

/// Decoding one value from the front of `b`, with arrays allowed to nest
/// `depth` levels below this one.
pub open spec fn spec_parse(b: Seq<u8>, depth: nat) -> SpecParseResult
    decreases depth, 2nat, 0nat,
{
    if b.len() == 0 {
        Err(ParseError::IncompleteInput)
    } else {
        let rest = b.subrange(1, b.len() as int);
        if b[0] == SIMPLE_STRING_TAG {
            spec_simple_string(rest)
        } else if b[0] == ERROR_TAG {
            spec_error(rest)
        } else if b[0] == BULK_STRING_TAG {
            spec_bulk_string(rest)
        } else if b[0] == INTEGER_TAG {
            spec_integer(rest)
        } else if b[0] == ARRAY_TAG {
            spec_array(rest, depth)
        } else {
            Err(ParseError::UnrecognisedSymbol)
        }
    }
}

/// Decoding one value from the front of `b` with the library's nesting limit.
pub open spec fn decode(b: Seq<u8>) -> SpecParseResult {
    spec_parse(b, MAX_DEPTH as nat)
}

pub proof fn lemma_split_line_at(b: Seq<u8>, i: int)
    requires
        first_crlf(b, i),
    ensures
        split_line(b) == Some((b.subrange(0, i), b.subrange(i + 2, b.len() as int))),
{
    assert(exists|k: int| first_crlf(b, k));
    let k = choose|k: int| first_crlf(b, k);
    if k < i {
        assert(!is_crlf_at(b, k));
    }
    if i < k {
        assert(!is_crlf_at(b, i));
    }
}

proof fn lemma_elements_error_stays(b: Seq<u8>, i: nat, n: nat, depth: nat)
    requires
        i <= n,
        spec_elements(b, i, depth) is Err,
    ensures
        spec_elements(b, n, depth) == spec_elements(b, i, depth),
    decreases n - i,
{
    if i < n {
        lemma_elements_error_stays(b, i, (n - 1) as nat, depth);
    }
}

pub struct Parser {}

impl Parser {
    /// Decodes one value from the front of `input`, returning it with the bytes after it.
    pub fn parse_resp(input: &[u8]) -> (r: ParseResult)
        ensures
            view_result(r) == decode(input@),
    {
        Self::parse_nested(input, MAX_DEPTH)
    }

    fn parse_nested(input: &[u8], depth: usize) -> (r: ParseResult)
        ensures
            view_result(r) == spec_parse(input@, depth as nat),
        decreases depth, 1usize,
    {
        if input.len() == 0 {
            return Err(ParseError::IncompleteInput);
        }
        let symbol = input[0];
        let remaining = &input[1..input.len()];
        if symbol == SIMPLE_STRING_TAG {
            Self::parse_simple_string(remaining)
        } else if symbol == ERROR_TAG {
            Self::parse_error(remaining)
        } else if symbol == BULK_STRING_TAG {
            Self::parse_bulk_string(remaining)
        } else if symbol == INTEGER_TAG {
            Self::parse_integer(remaining)
        } else if symbol == ARRAY_TAG {
            Self::parse_array_nested(remaining, depth)
        } else {
            Err(ParseError::UnrecognisedSymbol)
        }
    }

    /// Decodes a simple string after its tag.
    pub fn parse_simple_string(input: &[u8]) -> (r: ParseResult)
        ensures
            view_result(r) == spec_simple_string(input@),
    {
        match Self::parse_until_crlf(input) {
            Ok((line, remaining)) => Ok((RESPOutput::SimpleString(text_from_bytes(line)), remaining)),
            Err(e) => Err(e),
        }
    }

    /// Decodes an error after its tag.
    pub fn parse_error(input: &[u8]) -> (r: ParseResult)
        ensures
            view_result(r) == spec_error(input@),
    {
        match Self::parse_until_crlf(input) {
            Ok((line, remaining)) => Ok((RESPOutput::Error(text_from_bytes(line)), remaining)),
            Err(e) => Err(e),
        }
    }

    fn is_null_length_line(line: &[u8]) -> (r: bool)
        ensures
            r == is_null_length(line@),
    {
        if line.len() == 2 && line[0] == MINUS && line[1] == ZERO + 1 {
            assert(line@ =~= seq![MINUS, (ZERO + 1) as u8]);
            true
        } else {
            false
        }
    }

    /// Decodes a bulk string after its tag.
    pub fn parse_bulk_string(input: &[u8]) -> (r: ParseResult)
        ensures
            view_result(r) == spec_bulk_string(input@),
    {
        let (len_line, rest) = match Self::parse_until_crlf(input) {
            Ok(split) => split,
            Err(e) => return Err(e),
        };
        if Self::is_null_length_line(len_line) {
            return Ok((RESPOutput::Null, rest));
        }
        let (payload, remaining) = match Self::parse_until_crlf(rest) {
            Ok(split) => split,
            Err(e) => return Err(e),
        };
        let declared = match parse_unsigned_bytes(len_line) {
            Some(n) => n,
            None => return Err(ParseError::InvalidInput),
        };
        if payload.len() < declared {
            return Err(ParseError::IncompleteInput);
        }
        if payload.len() > declared {
            return Err(ParseError::InvalidInput);
        }
        Ok((RESPOutput::BulkString(text_from_bytes(payload)), remaining))
    }

    /// Decodes an integer after its tag.
    pub fn parse_integer(input: &[u8]) -> (r: ParseResult)
        ensures
            view_result(r) == spec_integer(input@),
    {
        let (line, remaining) = match Self::parse_until_crlf(input) {
            Ok(split) => split,
            Err(e) => return Err(e),
        };
        match parse_signed_bytes(line) {
            Some(n) => Ok((RESPOutput::Integer(n), remaining)),
            None => Err(ParseError::InvalidInput),
        }
    }

    /// Decodes an array after its tag.
    pub fn parse_array(input: &[u8]) -> (r: ParseResult)
        ensures
            view_result(r) == spec_array(input@, MAX_DEPTH as nat),
    {
        Self::parse_array_nested(input, MAX_DEPTH)
    }

    fn parse_array_nested(input: &[u8], depth: usize) -> (r: ParseResult)
        ensures
            view_result(r) == spec_array(input@, depth as nat),
        decreases depth, 0usize,
    {
        let (count_line, rest) = match Self::parse_until_crlf(input) {
            Ok(split) => split,
            Err(e) => return Err(e),
        };
        if Self::is_null_length_line(count_line) {
            return Ok((RESPOutput::Null, rest));
        }
        let count = match parse_unsigned_bytes(count_line) {
            Some(n) => n,
            None => return Err(ParseError::InvalidInput),
        };
        let mut items: Vec<RESPOutput> = Vec::new();
        let mut remaining = rest;
        let mut i: usize = 0;
        while i < count
            invariant
                i <= count,
                split_line(input@) == Some((count_line@, rest@)),
                !is_null_length(count_line@),
                parse_unsigned(count_line@) == Some(count as nat),
                spec_elements(rest@, i as nat, depth as nat) == Ok::<
                    (Seq<RespValue>, Seq<u8>),
                    ParseError,
                >((views_of(items@), remaining@)),
            decreases count - i,
        {
            if depth == 0 {
                proof {
                    assert(spec_elements(rest@, (i + 1) as nat, depth as nat) == Err::<
                        (Seq<RespValue>, Seq<u8>),
                        ParseError,
                    >(ParseError::InvalidInput));
                    lemma_elements_error_stays(rest@, (i + 1) as nat, count as nat, depth as nat);
                }
                return Err(ParseError::InvalidInput);
            }
            match Self::parse_nested(remaining, depth - 1) {
                Ok((item, after)) => {
                    let ghost before = items@;
                    items.push(item);
                    assert(items@.subrange(0, items@.len() - 1) =~= before);
                    remaining = after;
                    i = i + 1;
                },
                Err(e) => {
                    proof {
                        assert(spec_elements(rest@, (i + 1) as nat, depth as nat) == Err::<
                            (Seq<RespValue>, Seq<u8>),
                            ParseError,
                        >(e));
                        lemma_elements_error_stays(rest@, (i + 1) as nat, count as nat, depth as nat);
                    }
                    return Err(e);
                },
            }
        }
        Ok((RESPOutput::Array(items), remaining))
    }

    /// Splits `input` at its first CRLF into the bytes before it and those after it.
    pub fn parse_until_crlf(input: &[u8]) -> (r: ParseCRLFResult)
        ensures
            match split_line(input@) {
                Some((line, rest)) => r matches Ok((a, b)) && a@ == line && b@ == rest,
                None => r == Err::<(&[u8], &[u8]), ParseError>(ParseError::CRLFNotFound),
            },
    {
        let mut i: usize = 0;
        while i < input.len() && input.len() - i > 1
            invariant
                i <= input@.len(),
                forall|j: int| 0 <= j < i ==> !#[trigger] is_crlf_at(input@, j),
            decreases input@.len() - i,
        {
            if input[i] == CR && input[i + 1] == LF {
                proof {
                    lemma_split_line_at(input@, i as int);
                }
                return Ok((&input[0..i], &input[i + 2..input.len()]));
            }
            i = i + 1;
        }
        assert(!exists|k: int| first_crlf(input@, k)) by {
            if exists|k: int| first_crlf(input@, k) {
                let k = choose|k: int| first_crlf(input@, k);
                assert(is_crlf_at(input@, k));
            }
        }
        Err(ParseError::CRLFNotFound)
    }
}

} // verus!
