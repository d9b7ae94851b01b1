//! Coercion of a scalar field's body into a typed value.

use vstd::prelude::*;
use vstd::string::*;
use vstd::utf8::*;
use crate::value::{Value, ValueView};

verus! {

/// The byte is one of the ASCII digits `0` to `9`.
pub open spec fn is_digit(byte: u8) -> bool {
    0x30 <= byte <= 0x39
}

/// Every byte is an ASCII digit.
pub open spec fn all_digits(bytes: Seq<u8>) -> bool {
    forall|i: int| 0 <= i < bytes.len() ==> is_digit(#[trigger] bytes[i])
}

/// What a digit stands for; zero for any other byte.
pub open spec fn digit_value(byte: u8) -> nat {
    if is_digit(byte) {
        (byte - 0x30) as nat
    } else {
        0
    }
}

/// The number that a string of digits writes in base 10.
pub open spec fn digits_value(digits: Seq<u8>) -> nat
    decreases digits.len(),
{
    if digits.len() == 0 {
        0
    } else {
        digits_value(digits.drop_last()) * 10 + digit_value(digits.last())
    }
}

/// The integer that `text` writes, if it writes one: an optional `-`, then
/// one digit or more and nothing else, with a value that a 64-bit signed
/// integer holds.
pub open spec fn integer_of(text: Seq<u8>) -> Option<int> {
    let negative = text.len() > 0 && text[0] == 0x2d;
    let digits = if negative {
        text.subrange(1, text.len() as int)
    } else {
        text
    };
    let magnitude = digits_value(digits) as int;
    let value = if negative {
        -magnitude
    } else {
        magnitude
    };
    if digits.len() > 0 && all_digits(digits) && i64::MIN <= value <= i64::MAX {
        Some(value)
    } else {
        None
    }
}

/// The bytes of the text `true`.
pub open spec fn true_text() -> Seq<u8> {
    seq![0x74u8, 0x72u8, 0x75u8, 0x65u8]
}

/// The bytes of the text `false`.
pub open spec fn false_text() -> Seq<u8> {
    seq![0x66u8, 0x61u8, 0x6cu8, 0x73u8, 0x65u8]
}

/// The value that a scalar body stands for. In this order: a body that is
/// not UTF-8 text is null; text that writes an integer is that integer; the
/// texts `true` and `false` are the booleans; any other text is itself.
pub open spec fn coerced(body: Seq<u8>) -> ValueView {
    if !valid_utf8(body) {
        ValueView::Null
    } else if integer_of(body) is Some {
        ValueView::Integer(integer_of(body)->0)
    } else if body == true_text() {
        ValueView::Bool(true)
    } else if body == false_text() {
        ValueView::Bool(false)
    } else {
        ValueView::Text(decode_utf8(body))
    }
}

/// One more digit multiplies by ten and adds.
proof fn lemma_digits_value_step(bytes: Seq<u8>, from: int, to: int)
    requires
        0 <= from <= to < bytes.len(),
    ensures
        digits_value(bytes.subrange(from, to + 1)) == digits_value(bytes.subrange(from, to)) * 10
            + digit_value(bytes[to]),
{
    let longer = bytes.subrange(from, to + 1);
    assert(longer.drop_last() =~= bytes.subrange(from, to));
}

/// The digits read so far never stand for more than all of them.
proof fn lemma_digits_value_grows(digits: Seq<u8>, k: int)
    requires
        0 <= k <= digits.len(),
    ensures
        digits_value(digits.take(k)) <= digits_value(digits),
    decreases digits.len(),
{
    if k == digits.len() {
        assert(digits.take(k) =~= digits);
    } else {
        lemma_digits_value_grows(digits.drop_last(), k);
        assert(digits.drop_last().take(k) =~= digits.take(k));
    }
}

/// Reads `text` as a base-10 integer.
pub fn parse_integer(text: &[u8]) -> (parsed: Option<i64>)
    ensures
        match parsed {
            Some(n) => integer_of(text@) == Some(n as int),
            None => integer_of(text@) is None,
        },
{
    let n: usize = text.len();
    if n == 0 {
        return None;
    }
    let negative: bool = text[0] == 0x2d;
    let start: usize = if negative {
        1
    } else {
        0
    };
    let limit: u128 = if negative {
        0x8000_0000_0000_0000
    } else {
        0x7fff_ffff_ffff_ffff
    };
    let ghost digits = text@.subrange(start as int, n as int);
    if start == n {
        return None;
    }
    let mut acc: u128 = 0;
    let mut i: usize = start;
    while i < n
        invariant
            start <= i <= n,
            n == text@.len(),
            n > 0,
            negative == (text@[0] == 0x2d),
            start == if negative { 1usize } else { 0usize },
            limit == if negative { 0x8000_0000_0000_0000u128 } else { 0x7fff_ffff_ffff_ffffu128 },
            digits == text@.subrange(start as int, n as int),
            all_digits(text@.subrange(start as int, i as int)),
            acc == digits_value(text@.subrange(start as int, i as int)),
            acc <= limit,
        decreases n - i,
    {
        let byte: u8 = text[i];
        if byte < 0x30 || byte > 0x39 {
            assert(digits[i - start] == byte);
            assert(!negative ==> digits =~= text@);
            return None;
        }
        let next: u128 = acc * 10 + (byte - 0x30) as u128;
        proof {
            lemma_digits_value_step(text@, start as int, i as int);
            assert(digits.take(i + 1 - start) =~= text@.subrange(start as int, i + 1));
            lemma_digits_value_grows(digits, i + 1 - start);
        }
        if next > limit {
            assert(!negative ==> digits =~= text@);
            return None;
        }
        assert forall|j: int| 0 <= j < i + 1 - start implies is_digit(
            #[trigger] text@.subrange(start as int, i + 1)[j],
        ) by {
            if j < i - start {
                assert(text@.subrange(start as int, i as int)[j] == text@[start + j]);
            }
        }
        acc = next;
        i += 1;
    }
    assert(text@.subrange(start as int, i as int) =~= digits);
    assert(!negative ==> digits =~= text@);
    if negative {
        if acc == 0x8000_0000_0000_0000 {
            Some(i64::MIN)
        } else {
            let magnitude: i64 = acc as i64;
            Some(-magnitude)
        }
    } else {
        Some(acc as i64)
    }
}

/// The text that `body` holds, if it is UTF-8.
///
/// Wraps `core::str::from_utf8`, of which this is taken on trust: it
/// succeeds exactly on the byte strings that are valid UTF-8, and the text
/// it then returns is made of the very bytes that it was given.
#[verifier::external_body]
fn text_of(body: &[u8]) -> (text: Option<&str>)
    ensures
        text is Some <==> valid_utf8(body@),
        text matches Some(t) ==> t.spec_bytes() == body@,
{
    core::str::from_utf8(body).ok()
}

/// Whether two byte strings are equal.
fn same_bytes(left: &[u8], right: &[u8]) -> (same: bool)
    ensures
        same == (left@ == right@),
{
    if left.len() != right.len() {
        return false;
    }
    let mut i: usize = 0;
    while i < left.len()
        invariant
            i <= left.len(),
            left.len() == right.len(),
            forall|j: int| 0 <= j < i ==> left@[j] == right@[j],
        decreases left.len() - i,
    {
        if left[i] != right[i] {
            return false;
        }
        i += 1;
    }
    assert(left@ =~= right@);
    true
}

/// Coerces the body of a scalar field into a value. Every body has one.
pub fn coerce(body: &[u8]) -> (value: Value)
    ensures
        value@ == coerced(body@),
{
    broadcast use encode_utf8_decode_utf8;

    match text_of(body) {
        None => Value::Null,
        Some(text) => {
            match parse_integer(body) {
                Some(n) => Value::Integer(n),
                None => {
                    let yes: [u8; 4] = [0x74, 0x72, 0x75, 0x65];
                    let no: [u8; 5] = [0x66, 0x61, 0x6c, 0x73, 0x65];
                    assert(yes@ =~= true_text());
                    assert(no@ =~= false_text());
                    if same_bytes(body, yes.as_slice()) {
                        Value::Bool(true)
                    } else if same_bytes(body, no.as_slice()) {
                        Value::Bool(false)
                    } else {
                        assert(decode_utf8(body@) == text@);
                        Value::Text(text.to_owned())
                    }
                },
            }
        },
    }
}

/// A byte string of ASCII bytes alone is UTF-8 text.
pub proof fn lemma_ascii_is_text(bytes: Seq<u8>)
    requires
        forall|i: int| 0 <= i < bytes.len() ==> #[trigger] bytes[i] < 0x80,
    ensures
        valid_utf8(bytes),
{
    assert(bytes.subrange(0, 0) =~= Seq::<u8>::empty());
    assert(partial_valid_utf8(bytes, 0));
    partial_valid_utf8_extend_ascii_block(bytes, 0, bytes.len() as int);
    assert(bytes.subrange(0, bytes.len() as int) =~= bytes);
}

/// A body that writes an integer and nothing else is coerced into that
/// integer.
pub proof fn law_integer_text_is_integer(body: Seq<u8>)
    requires
        integer_of(body) is Some,
    ensures
        coerced(body) == ValueView::Integer(integer_of(body)->0),
{
    let negative = body.len() > 0 && body[0] == 0x2d;
    assert forall|i: int| 0 <= i < body.len() implies #[trigger] body[i] < 0x80 by {
        if negative {
            if i > 0 {
                assert(body.subrange(1, body.len() as int)[i - 1] == body[i]);
            }
        }
    }
    lemma_ascii_is_text(body);
}

/// A body that is not UTF-8 text is coerced into null: it is no error.
pub proof fn law_invalid_text_is_null(body: Seq<u8>)
    requires
        !valid_utf8(body),
    ensures
        coerced(body) == ValueView::Null,
{
}

/// The digits that write a natural number in base 10, without leading
/// zeros.
pub open spec fn decimal_digits(n: nat) -> Seq<u8>
    decreases n,
{
    if n < 10 {
        seq![(0x30 + n) as u8]
    } else {
        decimal_digits(n / 10).push((0x30 + n % 10) as u8)
    }
}

/// The text that writes an integer in base 10: a `-` where it is negative,
/// then the digits.
pub open spec fn decimal(n: int) -> Seq<u8> {
    if n < 0 {
        seq![0x2du8] + decimal_digits((-n) as nat)
    } else {
        decimal_digits(n as nat)
    }
}

/// The digits of a number are digits, and stand for the number.
pub proof fn lemma_decimal_digits(n: nat)
    ensures
        decimal_digits(n).len() > 0,
        all_digits(decimal_digits(n)),
        digits_value(decimal_digits(n)) == n,
    decreases n,
{
    let digits = decimal_digits(n);
    if n < 10 {
        assert(digits.drop_last() =~= Seq::<u8>::empty());
        assert(digits_value(digits.drop_last()) == 0);
    } else {
        lemma_decimal_digits(n / 10);
        assert(digits.drop_last() =~= decimal_digits(n / 10));
    }
}

/// Every 64-bit signed integer is read back from the text that writes it.
pub proof fn law_decimal_reads_back(n: int)
    requires
        i64::MIN <= n <= i64::MAX,
    ensures
        integer_of(decimal(n)) == Some(n),
        coerced(decimal(n)) == ValueView::Integer(n),
{
    let text = decimal(n);
    if n < 0 {
        lemma_decimal_digits((-n) as nat);
        assert(text.subrange(1, text.len() as int) =~= decimal_digits((-n) as nat));
    } else {
        lemma_decimal_digits(n as nat);
        assert(text[0] != 0x2d);
    }
    law_integer_text_is_integer(text);
}

} // verus!
