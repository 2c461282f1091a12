//! The response encoder: writes protocol values back as wire bytes.

use vstd::prelude::*;
use vstd::utf8::encode_utf8;

use crate::decimal::{decimal, signed_decimal, write_decimal, write_signed_decimal, MINUS, ZERO};
use crate::parser::{
    views_of, RESPOutput, RespValue, ARRAY_TAG, BULK_STRING_TAG, CR, ERROR_TAG, INTEGER_TAG, LF,
    SIMPLE_STRING_TAG,
};

verus! {

pub open spec fn crlf() -> Seq<u8> {
    seq![CR, LF]
}

/// The bytes that stand for `v` on the wire.
pub open spec fn encode_value(v: RespValue) -> Seq<u8>
    decreases v,
{
    match v {
        RespValue::SimpleString(s) => seq![SIMPLE_STRING_TAG] + encode_utf8(s) + crlf(),
        RespValue::Error(s) => seq![ERROR_TAG] + encode_utf8(s) + crlf(),
        RespValue::BulkString(s) => seq![BULK_STRING_TAG] + decimal(encode_utf8(s).len()) + crlf()
            + encode_utf8(s) + crlf(),
        RespValue::Integer(n) => seq![INTEGER_TAG] + signed_decimal(n) + crlf(),
        RespValue::Array(items) => seq![ARRAY_TAG] + decimal(items.len()) + crlf() + encode_values(
            items,
        ),
        RespValue::Null => seq![BULK_STRING_TAG, MINUS, (ZERO + 1) as u8] + crlf(),
    }
}

/// The encodings of `items`, one after another.
pub open spec fn encode_values(items: Seq<RespValue>) -> Seq<u8>
    decreases items,
{
    if items.len() == 0 {
        Seq::empty()
    } else {
        encode_values(items.subrange(0, items.len() - 1)) + encode_value(items[items.len() - 1])
    }
}

/// The forms of a sequence of values are the forms of its items, in order.
pub proof fn lemma_views_of(items: Seq<RESPOutput>)
    ensures
        views_of(items).len() == items.len(),
        forall|i: int| 0 <= i < items.len() ==> #[trigger] views_of(items)[i] == items[i]@,
    decreases items.len(),
{
    if items.len() > 0 {
        let prefix = items.subrange(0, items.len() - 1);
        lemma_views_of(prefix);
        assert(views_of(items) == views_of(prefix).push(items[items.len() - 1]@));
        assert forall|i: int| 0 <= i < items.len() implies #[trigger] views_of(items)[i]
            == items[i]@ by {
            if i < items.len() - 1 {
                assert(prefix[i] == items[i]);
            }
        }
    }
}

pub(crate) fn append_bytes(out: &mut Vec<u8>, bytes: &[u8])
    ensures
        final(out)@ == old(out)@ + bytes@,
{
    let mut i: usize = 0;
    while i < bytes.len()
        invariant
            i <= bytes@.len(),
            out@ == old(out)@ + bytes@.subrange(0, i as int),
        decreases bytes@.len() - i,
    {
        out.push(bytes[i]);
        assert(out@ =~= old(out)@ + bytes@.subrange(0, i + 1));
        i = i + 1;
    }
    assert(bytes@.subrange(0, i as int) =~= bytes@);
}

fn append_crlf(out: &mut Vec<u8>)
    ensures
        final(out)@ == old(out)@ + crlf(),
{
    out.push(CR);
    out.push(LF);
    assert(out@ =~= old(out)@ + crlf());
}

/// Appends the encoding of `v` to `out`.
fn encode_into(v: &RESPOutput, out: &mut Vec<u8>)
    ensures
        final(out)@ == old(out)@ + encode_value(v@),
    decreases v,
{
    match v {
        RESPOutput::SimpleString(s) => {
            out.push(SIMPLE_STRING_TAG);
            append_bytes(out, s.as_str().as_bytes());
            append_crlf(out);
            assert(out@ =~= old(out)@ + encode_value(v@));
        },
        RESPOutput::Error(s) => {
            out.push(ERROR_TAG);
            append_bytes(out, s.as_str().as_bytes());
            append_crlf(out);
            assert(out@ =~= old(out)@ + encode_value(v@));
        },
        RESPOutput::BulkString(s) => {
            let bytes = s.as_str().as_bytes();
            out.push(BULK_STRING_TAG);
            write_decimal(bytes.len() as u64, out);
            append_crlf(out);
            append_bytes(out, bytes);
            append_crlf(out);
            assert(out@ =~= old(out)@ + encode_value(v@));
        },
        RESPOutput::Integer(n) => {
            out.push(INTEGER_TAG);
            write_signed_decimal(*n, out);
            append_crlf(out);
            assert(out@ =~= old(out)@ + encode_value(v@));
        },
        RESPOutput::Array(items) => {
            out.push(ARRAY_TAG);
            write_decimal(items.len() as u64, out);
            append_crlf(out);
            let ghost start = out@;
            let ghost forms = views_of(items@);
            proof {
                lemma_views_of(items@);
                assert(forms.subrange(0, 0) =~= Seq::<RespValue>::empty());
            }
            let mut i: usize = 0;
            while i < items.len()
                invariant
                    i <= items@.len(),
                    *v == RESPOutput::Array(*items),
                    forms == views_of(items@),
                    forms.len() == items@.len(),
                    forall|j: int| 0 <= j < items@.len() ==> #[trigger] forms[j] == items@[j]@,
                    out@ == start + encode_values(forms.subrange(0, i as int)),
                decreases items@.len() - i,
            {
                proof {
                    vstd::std_specs::vec::axiom_vec_index_decreases(*items, i as int);
                    assert(decreases_to!(*v => (*v)->Array_0));
                }
                encode_into(&items[i], out);
                assert(forms.subrange(0, i + 1).subrange(0, i as int) =~= forms.subrange(
                    0,
                    i as int,
                ));
                assert(out@ =~= start + encode_values(forms.subrange(0, i + 1)));
                i = i + 1;
            }
            assert(forms.subrange(0, i as int) =~= forms);
            assert(out@ =~= old(out)@ + encode_value(v@));
        },
        RESPOutput::Null => {
            out.push(BULK_STRING_TAG);
            out.push(MINUS);
            out.push(ZERO + 1);
            append_crlf(out);
            assert(out@ =~= old(out)@ + encode_value(v@));
        },
    }
}

/// The wire bytes of `v`.
pub fn encode(v: &RESPOutput) -> (r: Vec<u8>)
    ensures
        r@ == encode_value(v@),
{
    let mut out: Vec<u8> = Vec::new();
    encode_into(v, &mut out);
    assert(out@ =~= encode_value(v@));
    out
}

/// The simple-string reply line for `res`.
pub fn format_string_response(res: &str) -> (r: String)
    ensures
        r@ == "+"@ + res@ + "\r\n"@,
{
    let mut out = String::from_str("+");
    out.append(res);
    out.append("\r\n");
    out
}

/// The reply to a ping.
pub fn send_pong_response() -> (r: String)
    ensures
        r@ == "+PONG\r\n"@,
{
    let r = format_string_response("PONG");
    proof {
        reveal_strlit("+");
        reveal_strlit("PONG");
        reveal_strlit("\r\n");
        reveal_strlit("+PONG\r\n");
    }
    assert(r@ =~= "+PONG\r\n"@);
    r
}

/// The bytes of a bulk-string reply holding `data`, or of the null bulk
/// string when there is none.
pub fn send_bulk_string_response(data: Option<&str>) -> (r: Vec<u8>)
    ensures
        r@ == encode_value(
            match data {
                Some(s) => RespValue::BulkString(s@),
                None => RespValue::Null,
            },
        ),
{
    match data {
        Some(s) => encode(&RESPOutput::BulkString(String::from_str(s))),
        None => encode(&RESPOutput::Null),
    }
}

/// The bytes of an error reply carrying `message`.
pub fn send_error_response(message: &str) -> (r: Vec<u8>)
    ensures
        r@ == encode_value(RespValue::Error(message@)),
{
    encode(&RESPOutput::Error(String::from_str(message)))
}

} // verus!
