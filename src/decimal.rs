//! Decimal integers as they appear on the wire: ASCII digits with an optional sign.

use vstd::prelude::*;

verus! {

pub const ZERO: u8 = 48;

pub const PLUS: u8 = 43;

pub const MINUS: u8 = 45;

pub open spec fn is_digit(c: u8) -> bool {
    ZERO <= c <= ZERO + 9
}

pub open spec fn all_digits(s: Seq<u8>) -> bool {
    forall|i: int| 0 <= i < s.len() ==> #[trigger] is_digit(s[i])
}

/// The value of a run of ASCII digits, most significant first.
pub open spec fn digits_value(s: Seq<u8>) -> nat
    decreases s.len(),
{
    if s.len() == 0 {
        0
    } else {
        digits_value(s.drop_last()) * 10 + (s.last() - ZERO) as nat
    }
}

/// The digits of `s` once a leading `+` is dropped, if there is one.
pub open spec fn unsigned_digits(s: Seq<u8>) -> Seq<u8> {
    if s.len() > 0 && s[0] == PLUS {
        s.drop_first()
    } else {
        s
    }
}

/// A number written as digits with an optional leading `+`, no greater than `max`.
pub open spec fn parse_unsigned_upto(s: Seq<u8>, max: nat) -> Option<nat> {
    let d = unsigned_digits(s);
    if d.len() > 0 && all_digits(d) && digits_value(d) <= max {
        Some(digits_value(d))
    } else {
        None
    }
}

/// A number written as digits with an optional leading `+`, that fits in a `usize`.
pub open spec fn parse_unsigned(s: Seq<u8>) -> Option<nat> {
    parse_unsigned_upto(s, usize::MAX as nat)
}

/// A number written as digits with an optional leading `+` or `-`, that fits in an `i64`.
pub open spec fn parse_signed(s: Seq<u8>) -> Option<int> {
    if s.len() > 0 && s[0] == MINUS {
        let d = s.drop_first();
        if d.len() > 0 && all_digits(d) && digits_value(d) <= 0x8000_0000_0000_0000 {
            Some(-digits_value(d))
        } else {
            None
        }
    } else {
        let d = unsigned_digits(s);
        if d.len() > 0 && all_digits(d) && digits_value(d) <= i64::MAX {
            Some(digits_value(d) as int)
        } else {
            None
        }
    }
}

/// The shortest decimal writing of `n`.
pub open spec fn decimal(n: nat) -> Seq<u8>
    decreases n,
{
    if n < 10 {
        seq![(ZERO + n) as u8]
    } else {
        decimal(n / 10).push((ZERO + n % 10) as u8)
    }
}

/// The decimal writing of `i`, with a `-` before a negative number.
pub open spec fn signed_decimal(i: int) -> Seq<u8> {
    if i < 0 {
        seq![MINUS] + decimal((-i) as nat)
    } else {
        decimal(i as nat)
    }
}

proof fn lemma_digits_value_grows(s: Seq<u8>, i: int)
    requires
        0 <= i <= s.len(),
        all_digits(s),
    ensures
        digits_value(s.subrange(0, i)) <= digits_value(s),
    decreases s.len() - i,
{
    if i < s.len() {
        lemma_digits_value_grows(s, i + 1);
        assert(s.subrange(0, i + 1).drop_last() =~= s.subrange(0, i));
    } else {
        assert(s.subrange(0, i) =~= s);
    }
}

/// Reads a run of digits; `None` when some byte is not a digit, the run is
/// empty, or its value does not fit in a `u64`.
fn digits_to_u64(d: &[u8]) -> (r: Option<u64>)
    ensures
        r matches Some(v) ==> d@.len() > 0 && all_digits(d@) && v == digits_value(d@),
        r is None ==> !(d@.len() > 0 && all_digits(d@) && digits_value(d@) <= u64::MAX),
{
    if d.len() == 0 {
        return None;
    }
    let mut acc: u64 = 0;
    let mut i: usize = 0;
    while i < d.len()
        invariant
            0 <= i <= d@.len(),
            all_digits(d@.subrange(0, i as int)),
            acc == digits_value(d@.subrange(0, i as int)),
        decreases d@.len() - i,
    {
        let c = d[i];
        assert(d@.subrange(0, i + 1).drop_last() =~= d@.subrange(0, i as int));
        if c < ZERO || c > ZERO + 9 {
            assert(!is_digit(d@[i as int]));
            return None;
        }
        let digit = (c - ZERO) as u64;
        if acc > (u64::MAX - digit) / 10 {
            proof {
                assert(acc * 10 + digit > u64::MAX) by (nonlinear_arith)
                    requires acc > (u64::MAX - digit) / 10, digit <= 9;
                if all_digits(d@) {
                    lemma_digits_value_grows(d@, i + 1);
                }
            }
            return None;
        }
        acc = acc * 10 + digit;
        i = i + 1;
    }
    assert(d@.subrange(0, i as int) =~= d@);
    Some(acc)
}

/// Reads a number that fits in a `u64`: digits with an optional leading `+`.
pub fn parse_u64_bytes(s: &[u8]) -> (r: Option<u64>)
    ensures
        r matches Some(v) ==> parse_unsigned_upto(s@, u64::MAX as nat) == Some(v as nat),
        r is None ==> parse_unsigned_upto(s@, u64::MAX as nat) is None,
{
    let d = if s.len() > 0 && s[0] == PLUS {
        &s[1..s.len()]
    } else {
        s
    };
    assert(d@ == unsigned_digits(s@));
    digits_to_u64(d)
}

/// Reads a length or a count: digits with an optional leading `+`.
pub fn parse_unsigned_bytes(s: &[u8]) -> (r: Option<usize>)
    ensures
        r matches Some(v) ==> parse_unsigned(s@) == Some(v as nat),
        r is None ==> parse_unsigned(s@) is None,
{
    match parse_u64_bytes(s) {
        Some(v) => {
            if v > usize::MAX as u64 {
                None
            } else {
                Some(v as usize)
            }
        },
        None => None,
    }
}

/// Reads an integer: digits with an optional leading `+` or `-`.
pub fn parse_signed_bytes(s: &[u8]) -> (r: Option<i64>)
    ensures
        r matches Some(v) ==> parse_signed(s@) == Some(v as int),
        r is None ==> parse_signed(s@) is None,
{
    if s.len() > 0 && s[0] == MINUS {
        let d = &s[1..s.len()];
        assert(d@ == s@.drop_first());
        match digits_to_u64(d) {
            Some(v) => {
                if v > 0x8000_0000_0000_0000u64 {
                    None
                } else if v == 0x8000_0000_0000_0000u64 {
                    Some(i64::MIN)
                } else {
                    Some(-(v as i64))
                }
            },
            None => None,
        }
    } else {
        let d = if s.len() > 0 && s[0] == PLUS {
            &s[1..s.len()]
        } else {
            s
        };
        assert(d@ == unsigned_digits(s@));
        match digits_to_u64(d) {
            Some(v) => {
                if v > i64::MAX as u64 {
                    None
                } else {
                    Some(v as i64)
                }
            },
            None => None,
        }
    }
}

/// Appends the decimal writing of `n` to `out`.
pub fn write_decimal(n: u64, out: &mut Vec<u8>)
    ensures
        final(out)@ == old(out)@ + decimal(n as nat),
    decreases n,
{
    if n >= 10 {
        write_decimal(n / 10, out);
    }
    out.push(ZERO + (n % 10) as u8);
    proof {
        if n < 10 {
            assert(n % 10 == n);
        }
    }
    assert(final(out)@ =~= old(out)@ + decimal(n as nat));
}

/// Appends the decimal writing of `i`, with its sign when negative, to `out`.
pub fn write_signed_decimal(i: i64, out: &mut Vec<u8>)
    ensures
        final(out)@ == old(out)@ + signed_decimal(i as int),
{
    if i < 0 {
        out.push(MINUS);
        let magnitude: u64 = (-(i + 1)) as u64 + 1;
        write_decimal(magnitude, out);
        assert(final(out)@ =~= old(out)@ + signed_decimal(i as int));
    } else {
        write_decimal(i as u64, out);
    }
}

/// The decimal writing of a number is a non-empty run of digits with that value.
pub proof fn lemma_decimal_digits(n: nat)
    ensures
        decimal(n).len() > 0,
        all_digits(decimal(n)),
        digits_value(decimal(n)) == n,
        decimal(n)[0] != PLUS && decimal(n)[0] != MINUS,
    decreases n,
{
    if n >= 10 {
        lemma_decimal_digits(n / 10);
        let d = decimal(n);
        assert(d.drop_last() =~= decimal(n / 10));
        assert(d[0] == decimal(n / 10)[0]);
        assert(n == (n / 10) * 10 + n % 10);
        assert(d.last() == (ZERO + n % 10) as u8);
        assert(digits_value(d) == digits_value(d.drop_last()) * 10 + (d.last() - ZERO) as nat);
    } else {
        let d = decimal(n);
        assert(d.drop_last() =~= Seq::<u8>::empty());
        assert(digits_value(d) == digits_value(d.drop_last()) * 10 + (d.last() - ZERO) as nat);
        assert(d.last() == (ZERO + n) as u8);
    }
}

/// Reading back the decimal writing of a `usize` gives the number.
pub proof fn lemma_parse_unsigned_decimal(n: nat)
    requires
        n <= usize::MAX,
    ensures
        parse_unsigned(decimal(n)) == Some(n),
{
    lemma_decimal_digits(n);
}

/// Reading back the signed decimal writing of an `i64` gives the number.
pub proof fn lemma_parse_signed_decimal(i: int)
    requires
        i64::MIN <= i <= i64::MAX,
    ensures
        parse_signed(signed_decimal(i)) == Some(i),
{
    if i < 0 {
        lemma_decimal_digits((-i) as nat);
        assert((seq![MINUS] + decimal((-i) as nat)).drop_first() =~= decimal((-i) as nat));
    } else {
        lemma_decimal_digits(i as nat);
    }
}

} // verus!
