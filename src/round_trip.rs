//! Laws that tie the decoder to the encoder.

use vstd::prelude::*;
use vstd::utf8::{encode_utf8, encode_utf8_decode_utf8, encode_utf8_valid_utf8};

use crate::decimal::{
    all_digits, decimal, is_digit, lemma_decimal_digits, lemma_parse_signed_decimal,
    lemma_parse_unsigned_decimal, signed_decimal, MINUS,
};
use crate::parser::{
    decode, first_crlf, is_crlf_at, is_null_length, lemma_split_line_at, split_line, spec_elements,
    spec_parse, text_of, RespValue, ParseError, CR, LF, MAX_DEPTH, SIMPLE_STRING_TAG, ERROR_TAG,
    INTEGER_TAG, BULK_STRING_TAG,
};
use crate::response_helper::{crlf, encode_value, encode_values};

verus! {

/// `b` holds no CRLF.
pub open spec fn no_crlf(b: Seq<u8>) -> bool {
    forall|i: int| !#[trigger] is_crlf_at(b, i)
}

/// `v` is a value that the wire form can carry with arrays nested at most
/// `depth` levels below it: no text holds a CRLF, integers are `i64`s, and
/// lengths and counts fit in a `usize`.
pub open spec fn well_formed(v: RespValue, depth: nat) -> bool
    decreases v,
{
    match v {
        RespValue::SimpleString(s) => no_crlf(encode_utf8(s)),
        RespValue::Error(s) => no_crlf(encode_utf8(s)),
        RespValue::BulkString(s) => no_crlf(encode_utf8(s)) && encode_utf8(s).len() <= usize::MAX,
        RespValue::Integer(n) => i64::MIN <= n <= i64::MAX,
        RespValue::Array(items) => items.len() <= usize::MAX && (items.len() == 0 || (depth > 0
            && forall|i: int| 0 <= i < items.len() ==> well_formed(#[trigger] items[i], (depth - 1) as nat))),
        RespValue::Null => true,
    }
}

proof fn lemma_split_line_of(line: Seq<u8>, rest: Seq<u8>)
    requires
        no_crlf(line),
    ensures
        split_line(line + crlf() + rest) == Some((line, rest)),
{
    let b = line + crlf() + rest;
    let n = line.len() as int;
    assert(b[n] == CR && b[n + 1] == LF);
    assert forall|j: int| 0 <= j < n implies !#[trigger] is_crlf_at(b, j) by {
        if j + 1 < n {
            assert(!is_crlf_at(line, j));
        } else {
            assert(b[j + 1] == CR);
        }
    }
    assert(first_crlf(b, n));
    lemma_split_line_at(b, n);
    assert(b.subrange(0, n) =~= line);
    assert(b.subrange(n + 2, b.len() as int) =~= rest);
}

proof fn lemma_digits_no_crlf(d: Seq<u8>)
    requires
        all_digits(d),
    ensures
        no_crlf(d),
{
    assert forall|i: int| !#[trigger] is_crlf_at(d, i) by {
        if 0 <= i < d.len() {
            assert(is_digit(d[i]));
        }
    }
}

proof fn lemma_signed_no_crlf(n: int)
    ensures
        no_crlf(signed_decimal(n)),
{
    if n < 0 {
        let d = decimal((-n) as nat);
        lemma_decimal_digits((-n) as nat);
        let s = seq![MINUS] + d;
        assert forall|i: int| !#[trigger] is_crlf_at(s, i) by {
            if 0 <= i < s.len() {
                if i > 0 {
                    assert(s[i] == d[i - 1]);
                    assert(is_digit(d[i - 1]));
                }
            }
        }
    } else {
        lemma_decimal_digits(n as nat);
        lemma_digits_no_crlf(decimal(n as nat));
    }
}

proof fn lemma_text_of_encoding(s: Seq<char>)
    ensures
        text_of(encode_utf8(s)) == s,
{
    encode_utf8_valid_utf8(s);
    encode_utf8_decode_utf8(s);
}

/// Decoding the encoding of a well-formed value, followed by any bytes,
/// gives back the value and exactly those bytes.
pub proof fn lemma_round_trip(v: RespValue, rest: Seq<u8>, depth: nat)
    requires
        well_formed(v, depth),
    ensures
        spec_parse(encode_value(v) + rest, depth) == Ok::<(RespValue, Seq<u8>), ParseError>((v, rest)),
    decreases v,
{
    let b = encode_value(v) + rest;
    let after_tag = b.subrange(1, b.len() as int);
    match v {
        RespValue::SimpleString(s) => {
            assert(after_tag =~= encode_utf8(s) + crlf() + rest);
            lemma_split_line_of(encode_utf8(s), rest);
            lemma_text_of_encoding(s);
        },
        RespValue::Error(s) => {
            assert(after_tag =~= encode_utf8(s) + crlf() + rest);
            lemma_split_line_of(encode_utf8(s), rest);
            lemma_text_of_encoding(s);
        },
        RespValue::BulkString(s) => {
            let len = encode_utf8(s).len();
            let tail = encode_utf8(s) + crlf() + rest;
            assert(after_tag =~= decimal(len) + crlf() + tail);
            lemma_decimal_digits(len);
            lemma_digits_no_crlf(decimal(len));
            lemma_split_line_of(decimal(len), tail);
            assert(!is_null_length(decimal(len)));
            lemma_split_line_of(encode_utf8(s), rest);
            lemma_parse_unsigned_decimal(len);
            lemma_text_of_encoding(s);
        },
        RespValue::Integer(n) => {
            assert(after_tag =~= signed_decimal(n) + crlf() + rest);
            lemma_signed_no_crlf(n);
            lemma_split_line_of(signed_decimal(n), rest);
            lemma_parse_signed_decimal(n);
        },
        RespValue::Array(items) => {
            let tail = encode_values(items) + rest;
            assert(after_tag =~= decimal(items.len()) + crlf() + tail);
            lemma_decimal_digits(items.len());
            lemma_digits_no_crlf(decimal(items.len()));
            lemma_split_line_of(decimal(items.len()), tail);
            assert(!is_null_length(decimal(items.len())));
            lemma_parse_unsigned_decimal(items.len());
            lemma_elements_round_trip(items, rest, depth);
        },
        RespValue::Null => {
            let minus_one = seq![MINUS, 49u8];
            assert(after_tag =~= minus_one + crlf() + rest);
            assert(no_crlf(minus_one)) by {
                assert forall|i: int| !#[trigger] is_crlf_at(minus_one, i) by {}
            }
            lemma_split_line_of(minus_one, rest);
        },
    }
}

/// Decoding the encodings of well-formed items one after another gives back
/// the items and the bytes after them.
pub proof fn lemma_elements_round_trip(items: Seq<RespValue>, rest: Seq<u8>, depth: nat)
    requires
        items.len() == 0 || (depth > 0 && forall|i: int|
            0 <= i < items.len() ==> well_formed(#[trigger] items[i], (depth - 1) as nat)),
    ensures
        spec_elements(encode_values(items) + rest, items.len(), depth) == Ok::<
            (Seq<RespValue>, Seq<u8>),
            ParseError,
        >((items, rest)),
    decreases items,
{
    if items.len() == 0 {
        assert(encode_values(items) + rest =~= rest);
        assert(items =~= Seq::<RespValue>::empty());
    } else {
        let n = items.len() - 1;
        let earlier = items.subrange(0, n);
        let last = items[n];
        let after = encode_value(last) + rest;
        assert forall|i: int| 0 <= i < earlier.len() implies well_formed(
            #[trigger] earlier[i],
            (depth - 1) as nat,
        ) by {
            assert(earlier[i] == items[i]);
        }
        lemma_elements_round_trip(earlier, after, depth);
        assert(encode_values(items) + rest =~= encode_values(earlier) + after);
        lemma_round_trip(last, rest, (depth - 1) as nat);
        assert(earlier.push(last) =~= items);
    }
}

/// For every value that the wire form can carry within the nesting limit,
/// encoding what the decoder reads from its encoding gives the same bytes,
/// and nothing is left over.
pub proof fn lemma_encode_decode(v: RespValue)
    requires
        well_formed(v, MAX_DEPTH as nat),
    ensures
        decode(encode_value(v)) matches Ok((w, rest)) && rest.len() == 0 && encode_value(w)
            == encode_value(v),
{
    lemma_round_trip(v, Seq::empty(), MAX_DEPTH as nat);
    assert(encode_value(v) + Seq::<u8>::empty() =~= encode_value(v));
}

/// The decoder ran out of bytes: the rest of the value has not arrived yet.
pub open spec fn needs_more_bytes(e: ParseError) -> bool {
    e == ParseError::IncompleteInput || e == ParseError::CRLFNotFound
}

proof fn lemma_no_line_in_prefix(line: Seq<u8>, rest: Seq<u8>, m: int)
    requires
        no_crlf(line),
        0 <= m < line.len() + 2,
    ensures
        split_line((line + crlf() + rest).subrange(0, m)) is None,
{
    let p = (line + crlf() + rest).subrange(0, m);
    assert forall|j: int| !#[trigger] is_crlf_at(p, j) by {
        if is_crlf_at(p, j) {
            if j + 1 < line.len() {
                assert(p[j] == line[j] && p[j + 1] == line[j + 1]);
                assert(is_crlf_at(line, j));
            } else {
                assert(p[j + 1] == CR);
            }
        }
    }
    if exists|i: int| first_crlf(p, i) {
        let i = choose|i: int| first_crlf(p, i);
        assert(is_crlf_at(p, i));
    }
}

proof fn lemma_line_prefix(tag: u8, line: Seq<u8>, k: int)
    requires
        no_crlf(line),
        0 < k < line.len() + 3,
    ensures
        split_line((seq![tag] + line + crlf()).subrange(0, k).subrange(1, k)) is None,
{
    let p = (seq![tag] + line + crlf()).subrange(0, k);
    assert(p.subrange(1, k) =~= (line + crlf() + Seq::<u8>::empty()).subrange(0, k - 1));
    lemma_no_line_in_prefix(line, Seq::empty(), k - 1);
}

proof fn lemma_bulk_prefix(s: Seq<char>, k: int, depth: nat)
    requires
        well_formed(RespValue::BulkString(s), depth),
        0 < k < encode_value(RespValue::BulkString(s)).len(),
    ensures
        spec_parse(encode_value(RespValue::BulkString(s)).subrange(0, k), depth) matches Err(e)
            && needs_more_bytes(e),
{
    let p = encode_value(RespValue::BulkString(s)).subrange(0, k);
    let after_tag = p.subrange(1, k);
    let m = k - 1;
    let len = encode_utf8(s).len();
    let tail = encode_utf8(s) + crlf();
    lemma_decimal_digits(len);
    lemma_digits_no_crlf(decimal(len));
    let first = decimal(len).len() + 2;
    if m < first {
        assert(after_tag =~= (decimal(len) + crlf() + tail).subrange(0, m));
        lemma_no_line_in_prefix(decimal(len), tail, m);
    } else {
        let partial = tail.subrange(0, m - first);
        assert(after_tag =~= decimal(len) + crlf() + partial);
        lemma_split_line_of(decimal(len), partial);
        assert(!is_null_length(decimal(len)));
        assert(partial =~= (encode_utf8(s) + crlf() + Seq::<u8>::empty()).subrange(0, m - first));
        lemma_no_line_in_prefix(encode_utf8(s), Seq::empty(), m - first);
    }
}

proof fn lemma_array_prefix(items: Seq<RespValue>, k: int, depth: nat)
    requires
        well_formed(RespValue::Array(items), depth),
        0 < k < encode_value(RespValue::Array(items)).len(),
    ensures
        spec_parse(encode_value(RespValue::Array(items)).subrange(0, k), depth) matches Err(e)
            && needs_more_bytes(e),
    decreases items, 2nat,
{
    let p = encode_value(RespValue::Array(items)).subrange(0, k);
    let after_tag = p.subrange(1, k);
    let m = k - 1;
    let n = items.len();
    let body = encode_values(items);
    lemma_decimal_digits(n);
    lemma_digits_no_crlf(decimal(n));
    let first = decimal(n).len() + 2;
    if m < first {
        assert(after_tag =~= (decimal(n) + crlf() + body).subrange(0, m));
        lemma_no_line_in_prefix(decimal(n), body, m);
    } else {
        let partial = body.subrange(0, m - first);
        assert(after_tag =~= decimal(n) + crlf() + partial);
        lemma_split_line_of(decimal(n), partial);
        assert(!is_null_length(decimal(n)));
        lemma_parse_unsigned_decimal(n);
        lemma_elements_prefix_needs_more(items, m - first, depth);
    }
}

/// Every strict prefix of the encoding of a well-formed value decodes to an
/// error that asks for more bytes: never to a value, and never to a
/// rejection of the input.
pub proof fn lemma_strict_prefix_needs_more(v: RespValue, k: int, depth: nat)
    requires
        well_formed(v, depth),
        0 <= k < encode_value(v).len(),
    ensures
        spec_parse(encode_value(v).subrange(0, k), depth) matches Err(e) && needs_more_bytes(e),
    decreases v, 1nat,
{
    if k == 0 {
        return;
    }
    match v {
        RespValue::SimpleString(s) => {
            lemma_line_prefix(SIMPLE_STRING_TAG, encode_utf8(s), k);
        },
        RespValue::Error(s) => {
            lemma_line_prefix(ERROR_TAG, encode_utf8(s), k);
        },
        RespValue::Integer(n) => {
            lemma_signed_no_crlf(n);
            lemma_line_prefix(INTEGER_TAG, signed_decimal(n), k);
        },
        RespValue::Null => {
            let minus_one = seq![MINUS, 49u8];
            assert(no_crlf(minus_one)) by {
                assert forall|i: int| !#[trigger] is_crlf_at(minus_one, i) by {}
            }
            assert(encode_value(v) =~= seq![BULK_STRING_TAG] + minus_one + crlf());
            lemma_line_prefix(BULK_STRING_TAG, minus_one, k);
        },
        RespValue::BulkString(s) => {
            lemma_bulk_prefix(s, k, depth);
        },
        RespValue::Array(items) => {
            lemma_array_prefix(items, k, depth);
        },
    }
}

/// Every strict prefix of the encodings of well-formed items, one after
/// another, stops the decoding of those items with an error that asks for
/// more bytes.
pub proof fn lemma_elements_prefix_needs_more(items: Seq<RespValue>, j: int, depth: nat)
    requires
        items.len() == 0 || (depth > 0 && forall|i: int|
            0 <= i < items.len() ==> well_formed(#[trigger] items[i], (depth - 1) as nat)),
        0 <= j < encode_values(items).len(),
    ensures
        spec_elements(encode_values(items).subrange(0, j), items.len(), depth) matches Err(e)
            && needs_more_bytes(e),
    decreases items, 1nat,
{
    let n = items.len() - 1;
    let earlier = items.subrange(0, n);
    let last = items[n];
    let q = encode_values(items).subrange(0, j);
    assert forall|i: int| 0 <= i < earlier.len() implies well_formed(
        #[trigger] earlier[i],
        (depth - 1) as nat,
    ) by {
        assert(earlier[i] == items[i]);
    }
    let head = encode_values(earlier);
    if j >= head.len() {
        let partial = encode_value(last).subrange(0, j - head.len());
        assert(q =~= head + partial);
        lemma_elements_round_trip(earlier, partial, depth);
        lemma_strict_prefix_needs_more(last, j - head.len(), (depth - 1) as nat);
    } else {
        assert(q =~= head.subrange(0, j));
        lemma_elements_prefix_needs_more(earlier, j, depth);
    }
}

/// Every strict prefix of the encoding of a value that the wire form can
/// carry within the nesting limit decodes to an error asking for more bytes.
pub proof fn lemma_truncated_input_needs_more(v: RespValue, k: int)
    requires
        well_formed(v, MAX_DEPTH as nat),
        0 <= k < encode_value(v).len(),
    ensures
        decode(encode_value(v).subrange(0, k)) matches Err(e) && needs_more_bytes(e),
{
    lemma_strict_prefix_needs_more(v, k, MAX_DEPTH as nat);
}

} // verus!
