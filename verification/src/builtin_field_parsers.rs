//! Decoders for integers, text and raw bytes.

use crate::field::ParseCsvField;
use vstd::prelude::*;
use vstd::string::StringSliceAdditionalSpecFns;
use vstd::utf8::{encode_utf8, valid_utf8};

verus! {

/// An ASCII whitespace byte: tab, line feed, form feed, carriage return or
/// space.
pub open spec fn is_ascii_whitespace(b: u8) -> bool {
    b == 9 || b == 10 || b == 12 || b == 13 || b == 32
}

/// The bytes without the ASCII whitespace at their start.
pub open spec fn trim_ascii_start(bytes: Seq<u8>) -> Seq<u8>
    decreases bytes.len(),
{
    if bytes.len() > 0 && is_ascii_whitespace(bytes.first()) {
        trim_ascii_start(bytes.drop_first())
    } else {
        bytes
    }
}

/// The bytes without the ASCII whitespace at their end.
pub open spec fn trim_ascii_end(bytes: Seq<u8>) -> Seq<u8>
    decreases bytes.len(),
{
    if bytes.len() > 0 && is_ascii_whitespace(bytes.last()) {
        trim_ascii_end(bytes.drop_last())
    } else {
        bytes
    }
}

/// The bytes without the ASCII whitespace at both ends.
pub open spec fn trimmed(bytes: Seq<u8>) -> Seq<u8> {
    trim_ascii_end(trim_ascii_start(bytes))
}

fn is_whitespace(b: u8) -> (yes: bool)
    ensures
        yes == is_ascii_whitespace(b),
{
    b == 9 || b == 10 || b == 12 || b == 13 || b == 32
}

/// Strips the ASCII whitespace from both ends of the bytes.
pub fn trim_ascii<'a>(buffer: &'a [u8]) -> (inner: &'a [u8])
    ensures
        inner@ == trimmed(buffer@),
{
    let mut start: usize = 0;
    assert(buffer@.subrange(0, buffer@.len() as int) =~= buffer@);
    while start < buffer.len() && is_whitespace(buffer[start])
        invariant
            start <= buffer@.len(),
            trim_ascii_start(buffer@) == trim_ascii_start(
                buffer@.subrange(start as int, buffer@.len() as int),
            ),
        decreases buffer@.len() - start,
    {
        proof {
            let rest = buffer@.subrange(start as int, buffer@.len() as int);
            assert(rest.drop_first() =~= buffer@.subrange(start + 1, buffer@.len() as int));
        }
        start += 1;
    }
    let mut end: usize = buffer.len();
    while end > start && is_whitespace(buffer[end - 1])
        invariant
            start <= end <= buffer@.len(),
            trim_ascii_start(buffer@) == buffer@.subrange(start as int, buffer@.len() as int),
            trimmed(buffer@) == trim_ascii_end(buffer@.subrange(start as int, end as int)),
        decreases end - start,
    {
        proof {
            let rest = buffer@.subrange(start as int, end as int);
            assert(rest.drop_last() =~= buffer@.subrange(start as int, end - 1));
        }
        end -= 1;
    }
    &buffer[start..end]
}

impl<'a> ParseCsvField<'a> for &'a [u8] {
    /// Raw bytes are always accepted.
    open spec fn accepts(field: Seq<u8>) -> bool {
        true
    }

    /// Raw bytes decode to themselves.
    open spec fn decodes_to(field: Seq<u8>, value: Self) -> bool {
        value@ == field
    }

    proof fn lemma_clone_decodes_alike(field: Seq<u8>, value: Self, copy: Self) {
    }

    fn parse_csv_field(buffer: &'a [u8]) -> (value: Result<Self, ()>) {
        Ok(buffer)
    }
}

impl<'a> ParseCsvField<'a> for &'a str {
    /// Text is accepted if it is valid UTF-8.
    open spec fn accepts(field: Seq<u8>) -> bool {
        valid_utf8(field)
    }

    /// The text is made of the bytes of the field.
    open spec fn decodes_to(field: Seq<u8>, value: Self) -> bool {
        value.spec_bytes() == field
    }

    proof fn lemma_clone_decodes_alike(field: Seq<u8>, value: Self, copy: Self) {
    }

    fn parse_csv_field(buffer: &'a [u8]) -> (value: Result<Self, ()>) {
        match core::str::from_utf8(buffer) {
            Ok(text) => Ok(text),
            Err(_) => Err(()),
        }
    }
}


impl<'a> ParseCsvField<'a> for String {
    /// Text is accepted if it is valid UTF-8.
    open spec fn accepts(field: Seq<u8>) -> bool {
        valid_utf8(field)
    }

    /// The text is a copy of the bytes of the field.
    open spec fn decodes_to(field: Seq<u8>, value: Self) -> bool {
        encode_utf8(value@) == field
    }

    proof fn lemma_clone_decodes_alike(field: Seq<u8>, value: Self, copy: Self) {
    }

    fn parse_csv_field(buffer: &'a [u8]) -> (value: Result<Self, ()>) {
        match core::str::from_utf8(buffer) {
            Ok(text) => Ok(text.to_owned()),
            Err(_) => Err(()),
        }
    }
}

/// An ASCII digit, `0` to `9`.
pub open spec fn is_ascii_digit(b: u8) -> bool {
    48 <= b <= 57
}

/// Whether the bytes are ASCII digits, all of them.
pub open spec fn all_digits(bytes: Seq<u8>) -> bool {
    forall|k: int| 0 <= k < bytes.len() ==> is_ascii_digit(#[trigger] bytes[k])
}

/// The number that a run of decimal digits denotes.
pub open spec fn digits_value(digits: Seq<u8>) -> nat
    decreases digits.len(),
{
    if digits.len() == 0 {
        0
    } else {
        digits_value(digits.drop_last()) * 10 + (digits.last() - 48) as nat
    }
}

/// The integer that a text denotes: an optional sign and then one or more
/// decimal digits, nothing else. A minus sign is read only where `signed`
/// holds. `None` for any other text.
pub open spec fn integer_of(text: Seq<u8>, signed: bool) -> Option<int> {
    let negative = signed && text.len() > 0 && text[0] == 45;
    let digits = if text.len() > 0 && (text[0] == 43 || negative) {
        text.drop_first()
    } else {
        text
    };
    if digits.len() > 0 && all_digits(digits) {
        Some(
            if negative {
                -(digits_value(digits) as int)
            } else {
                digits_value(digits) as int
            },
        )
    } else {
        None
    }
}

/// The integer that a text denotes, if it lies between `min` and `max`.
pub open spec fn integer_within(text: Seq<u8>, signed: bool, min: int, max: int) -> Option<int> {
    match integer_of(text, signed) {
        Some(v) => if min <= v <= max {
            Some(v)
        } else {
            None
        },
        None => None,
    }
}

/// More digits never denote a smaller number.
pub proof fn lemma_digits_value_grows(digits: Seq<u8>, n: int)
    requires
        0 <= n <= digits.len(),
        all_digits(digits),
    ensures
        digits_value(digits.take(n)) <= digits_value(digits),
    decreases digits.len() - n,
{
    if n < digits.len() {
        assert(digits.take(n + 1).drop_last() =~= digits.take(n));
        assert(is_ascii_digit(digits[n]));
        lemma_digits_value_grows(digits, n + 1);
    } else {
        assert(digits.take(n) =~= digits);
    }
}

/// Reads a decimal integer between `min` and `max` from the text. The bounds
/// are those of an integer type of at most 32 bits.
pub(crate) fn parse_integer(text: &[u8], signed: bool, min: i64, max: i64) -> (value: Option<i64>)
    requires
        -0x1_0000_0000 <= min <= 0 <= max <= 0x1_0000_0000,
    ensures
        match value {
            Some(v) => integer_within(text@, signed, min as int, max as int) == Some(v as int),
            None => integer_within(text@, signed, min as int, max as int).is_none(),
        },
{
    if text.len() == 0 {
        return None;
    }
    let negative: bool = signed && text[0] == 45;
    let start: usize = if text[0] == 43 || negative {
        1
    } else {
        0
    };
    if start == text.len() {
        return None;
    }
    let ghost digits = if start == 1 {
        text@.drop_first()
    } else {
        text@
    };
    let limit: i64 = if negative {
        -min
    } else {
        max
    };
    let mut magnitude: i64 = 0;
    let mut i: usize = start;
    assert(digits.take(0) =~= Seq::<u8>::empty());
    while i < text.len()
        invariant
            start <= i <= text@.len(),
            text@.len() > 0,
            negative == (signed && text@[0] == 45),
            start == 1 <==> (text@[0] == 43 || negative),
            digits == (if start == 1 {
                text@.drop_first()
            } else {
                text@
            }),
            limit == (if negative {
                -min
            } else {
                max as int
            }),
            digits.len() == text@.len() - start,
            forall|k: int| 0 <= k < digits.len() ==> digits[k] == text@[k + start],
            all_digits(digits.take(i - start)),
            magnitude == digits_value(digits.take(i - start)),
            0 <= magnitude <= limit <= 0x1_0000_0000,
        decreases text@.len() - i,
    {
        let b: u8 = text[i];
        if b < 48 || b > 57 {
            assert(!is_ascii_digit(digits[i - start]));
            return None;
        }
        proof {
            assert(digits.take(i - start + 1).drop_last() =~= digits.take(i - start));
            assert(digits.take(i - start + 1).last() == b);
        }
        magnitude = magnitude * 10 + (b - 48) as i64;
        if magnitude > limit {
            proof {
                if all_digits(digits) {
                    lemma_digits_value_grows(digits, i - start + 1);
                }
            }
            return None;
        }
        i += 1;
    }
    assert(digits.take(i - start) =~= digits);
    if negative {
        Some(-magnitude)
    } else {
        Some(magnitude)
    }
}


impl<'a> ParseCsvField<'a> for i8 {
    /// Accepted is an optional sign and decimal digits that denote an `i8`, with
    /// ASCII whitespace around them.
    open spec fn accepts(field: Seq<u8>) -> bool {
        integer_within(trimmed(field), true, i8::MIN as int, i8::MAX as int).is_some()
    }

    /// The value is the number that the trimmed field denotes.
    open spec fn decodes_to(field: Seq<u8>, value: Self) -> bool {
        integer_of(trimmed(field), true) == Some(value as int)
    }

    proof fn lemma_clone_decodes_alike(field: Seq<u8>, value: Self, copy: Self) {
    }

    fn parse_csv_field(buffer: &'a [u8]) -> (value: Result<Self, ()>) {
        match parse_integer(trim_ascii(buffer), true, i8::MIN as i64, i8::MAX as i64) {
            Some(v) => Ok(v as i8),
            None => Err(()),
        }
    }
}

impl<'a> ParseCsvField<'a> for i16 {
    /// Accepted is an optional sign and decimal digits that denote an `i16`, with
    /// ASCII whitespace around them.
    open spec fn accepts(field: Seq<u8>) -> bool {
        integer_within(trimmed(field), true, i16::MIN as int, i16::MAX as int).is_some()
    }

    /// The value is the number that the trimmed field denotes.
    open spec fn decodes_to(field: Seq<u8>, value: Self) -> bool {
        integer_of(trimmed(field), true) == Some(value as int)
    }

    proof fn lemma_clone_decodes_alike(field: Seq<u8>, value: Self, copy: Self) {
    }

    fn parse_csv_field(buffer: &'a [u8]) -> (value: Result<Self, ()>) {
        match parse_integer(trim_ascii(buffer), true, i16::MIN as i64, i16::MAX as i64) {
            Some(v) => Ok(v as i16),
            None => Err(()),
        }
    }
}

impl<'a> ParseCsvField<'a> for i32 {
    /// Accepted is an optional sign and decimal digits that denote an `i32`, with
    /// ASCII whitespace around them.
    open spec fn accepts(field: Seq<u8>) -> bool {
        integer_within(trimmed(field), true, i32::MIN as int, i32::MAX as int).is_some()
    }

    /// The value is the number that the trimmed field denotes.
    open spec fn decodes_to(field: Seq<u8>, value: Self) -> bool {
        integer_of(trimmed(field), true) == Some(value as int)
    }

    proof fn lemma_clone_decodes_alike(field: Seq<u8>, value: Self, copy: Self) {
    }

    fn parse_csv_field(buffer: &'a [u8]) -> (value: Result<Self, ()>) {
        match parse_integer(trim_ascii(buffer), true, i32::MIN as i64, i32::MAX as i64) {
            Some(v) => Ok(v as i32),
            None => Err(()),
        }
    }
}

impl<'a> ParseCsvField<'a> for u8 {
    /// Accepted is an optional plus sign and decimal digits that denote an `u8`, with
    /// ASCII whitespace around them.
    open spec fn accepts(field: Seq<u8>) -> bool {
        integer_within(trimmed(field), false, u8::MIN as int, u8::MAX as int).is_some()
    }

    /// The value is the number that the trimmed field denotes.
    open spec fn decodes_to(field: Seq<u8>, value: Self) -> bool {
        integer_of(trimmed(field), false) == Some(value as int)
    }

    proof fn lemma_clone_decodes_alike(field: Seq<u8>, value: Self, copy: Self) {
    }

    fn parse_csv_field(buffer: &'a [u8]) -> (value: Result<Self, ()>) {
        match parse_integer(trim_ascii(buffer), false, u8::MIN as i64, u8::MAX as i64) {
            Some(v) => Ok(v as u8),
            None => Err(()),
        }
    }
}

impl<'a> ParseCsvField<'a> for u16 {
    /// Accepted is an optional plus sign and decimal digits that denote an `u16`, with
    /// ASCII whitespace around them.
    open spec fn accepts(field: Seq<u8>) -> bool {
        integer_within(trimmed(field), false, u16::MIN as int, u16::MAX as int).is_some()
    }

    /// The value is the number that the trimmed field denotes.
    open spec fn decodes_to(field: Seq<u8>, value: Self) -> bool {
        integer_of(trimmed(field), false) == Some(value as int)
    }

    proof fn lemma_clone_decodes_alike(field: Seq<u8>, value: Self, copy: Self) {
    }

    fn parse_csv_field(buffer: &'a [u8]) -> (value: Result<Self, ()>) {
        match parse_integer(trim_ascii(buffer), false, u16::MIN as i64, u16::MAX as i64) {
            Some(v) => Ok(v as u16),
            None => Err(()),
        }
    }
}

impl<'a> ParseCsvField<'a> for u32 {
    /// Accepted is an optional plus sign and decimal digits that denote an `u32`, with
    /// ASCII whitespace around them.
    open spec fn accepts(field: Seq<u8>) -> bool {
        integer_within(trimmed(field), false, u32::MIN as int, u32::MAX as int).is_some()
    }

    /// The value is the number that the trimmed field denotes.
    open spec fn decodes_to(field: Seq<u8>, value: Self) -> bool {
        integer_of(trimmed(field), false) == Some(value as int)
    }

    proof fn lemma_clone_decodes_alike(field: Seq<u8>, value: Self, copy: Self) {
    }

    fn parse_csv_field(buffer: &'a [u8]) -> (value: Result<Self, ()>) {
        match parse_integer(trim_ascii(buffer), false, u32::MIN as i64, u32::MAX as i64) {
            Some(v) => Ok(v as u32),
            None => Err(()),
        }
    }
}

} // verus!
