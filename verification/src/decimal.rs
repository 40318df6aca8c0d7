//! Decimal notation of integers: how numbers are written, and which texts are read back.
use std::num::ParseIntError;
use vstd::prelude::*;
use vstd::string::to_string_from_display_ensures;

verus! {

/// The character of a decimal digit.
pub open spec fn digit_char(digit: nat) -> char
    recommends
        digit < 10,
{
    (48 + digit) as char
}

/// The decimal notation of `n`, without leading zeros.
pub open spec fn decimal(n: nat) -> Seq<char>
    decreases n,
{
    if n < 10 {
        seq![digit_char(n)]
    } else {
        decimal(n / 10).push(digit_char(n % 10))
    }
}

pub open spec fn is_digit(c: char) -> bool {
    '0' <= c <= '9'
}

/// A non-empty run of decimal digits.
pub open spec fn is_digits(text: Seq<char>) -> bool {
    &&& text.len() > 0
    &&& forall|i: int| 0 <= i < text.len() ==> is_digit(#[trigger] text[i])
}

/// The number that a run of decimal digits denotes.
pub open spec fn digits_value(text: Seq<char>) -> nat
    decreases text.len(),
{
    if text.len() == 0 {
        0
    } else {
        10 * digits_value(text.drop_last()) + (text.last() as nat - 48) as nat
    }
}

/// The number denoted by an optional `+` sign followed by only digits.
pub open spec fn unsigned_value(text: Seq<char>) -> Option<int> {
    let digits = if text.len() > 0 && text[0] == '+' { text.skip(1) } else { text };
    if is_digits(digits) {
        Some(digits_value(digits) as int)
    } else {
        None
    }
}

/// The number denoted by an optional `+` or `-` sign followed by only digits.
pub open spec fn signed_value(text: Seq<char>) -> Option<int> {
    if text.len() > 0 && text[0] == '-' {
        if is_digits(text.skip(1)) {
            Some(-(digits_value(text.skip(1)) as int))
        } else {
            None
        }
    } else {
        unsigned_value(text)
    }
}

/// `value`, where it lies between the two limits.
pub open spec fn within(value: Option<int>, min: int, max: int) -> Option<int> {
    match value {
        Some(v) => if min <= v <= max {
            Some(v)
        } else {
            None
        },
        None => None,
    }
}

pub open spec fn u64_value(text: Seq<char>) -> Option<int> {
    within(unsigned_value(text), u64::MIN as int, u64::MAX as int)
}

pub open spec fn u8_value(text: Seq<char>) -> Option<int> {
    within(unsigned_value(text), u8::MIN as int, u8::MAX as int)
}

pub open spec fn i32_value(text: Seq<char>) -> Option<int> {
    within(signed_value(text), i32::MIN as int, i32::MAX as int)
}

pub open spec fn i64_value(text: Seq<char>) -> Option<int> {
    within(signed_value(text), i64::MIN as int, i64::MAX as int)
}

/// Whether `text` is what the error displays.
pub open spec fn int_error_displays(error: ParseIntError, text: Seq<char>) -> bool {
    forall|shown: String|
        #![trigger to_string_from_display_ensures::<ParseIntError>(&error, shown)]
        to_string_from_display_ensures::<ParseIntError>(&error, shown) ==> shown@ == text
}

/// The standard library's error for text that is not an integer. Nothing is claimed of it here.
#[verifier::external_type_specification]
#[verifier::external_body]
pub struct ExParseIntError(std::num::ParseIntError);

/// What the error of `str::parse::<u64>` displays for a text that it rejects.
pub uninterp spec fn u64_error_text(text: Seq<char>) -> Seq<char>;

/// What the error of `str::parse::<u8>` displays for a text that it rejects.
pub uninterp spec fn u8_error_text(text: Seq<char>) -> Seq<char>;

/// What the error of `str::parse::<i32>` displays for a text that it rejects.
pub uninterp spec fn i32_error_text(text: Seq<char>) -> Seq<char>;

/// What the error of `str::parse::<i64>` displays for a text that it rejects.
pub uninterp spec fn i64_error_text(text: Seq<char>) -> Seq<char>;

/// `str::parse::<u64>`: accepts an optional `+` and only digits, if the number fits, and
/// returns the number. The error's text depends on the rejected text alone.
#[verifier::external_body]
pub(crate) fn parse_u64(text: &str) -> (res: Result<u64, ParseIntError>)
    ensures
        match res {
            Ok(v) => u64_value(text@) == Some(v as int),
            Err(e) => u64_value(text@) is None && int_error_displays(e, u64_error_text(text@)),
        },
{
    text.parse::<u64>()
}

/// `str::parse::<u8>`: accepts an optional `+` and only digits, if the number fits, and
/// returns the number. The error's text depends on the rejected text alone.
#[verifier::external_body]
pub(crate) fn parse_u8(text: &str) -> (res: Result<u8, ParseIntError>)
    ensures
        match res {
            Ok(v) => u8_value(text@) == Some(v as int),
            Err(e) => u8_value(text@) is None && int_error_displays(e, u8_error_text(text@)),
        },
{
    text.parse::<u8>()
}

/// `str::parse::<i32>`: accepts an optional `+` or `-` and only digits, if the number fits,
/// and returns the number. The error's text depends on the rejected text alone.
#[verifier::external_body]
pub(crate) fn parse_i32(text: &str) -> (res: Result<i32, ParseIntError>)
    ensures
        match res {
            Ok(v) => i32_value(text@) == Some(v as int),
            Err(e) => i32_value(text@) is None && int_error_displays(e, i32_error_text(text@)),
        },
{
    text.parse::<i32>()
}

/// `str::parse::<i64>`: accepts an optional `+` or `-` and only digits, if the number fits,
/// and returns the number. The error's text depends on the rejected text alone.
#[verifier::external_body]
pub(crate) fn parse_i64(text: &str) -> (res: Result<i64, ParseIntError>)
    ensures
        match res {
            Ok(v) => i64_value(text@) == Some(v as int),
            Err(e) => i64_value(text@) is None && int_error_displays(e, i64_error_text(text@)),
        },
{
    text.parse::<i64>()
}

/// `String::push`: appends the character.
pub assume_specification[ String::push ](text: &mut String, c: char)
    ensures
        final(text)@ == old(text)@.push(c),
;

/// Appends the decimal notation of `n`.
pub fn push_decimal(text: &mut String, n: u64)
    ensures
        final(text)@ == old(text)@ + decimal(n as nat),
    decreases n,
{
    if n < 10 {
        let digit: u8 = 48 + n as u8;
        text.push(digit as char);
        assert(text@ =~= old(text)@ + decimal(n as nat));
    } else {
        push_decimal(text, n / 10);
        let digit: u8 = 48 + (n % 10) as u8;
        text.push(digit as char);
        assert(text@ =~= old(text)@ + decimal(n as nat));
    }
}

/// Every number's notation is a run of digits that denotes the number.
pub proof fn lemma_decimal_value(n: nat)
    ensures
        is_digits(decimal(n)),
        digits_value(decimal(n)) == n,
    decreases n,
{
    reveal_with_fuel(digits_value, 2);
    if n >= 10 {
        lemma_decimal_value(n / 10);
        let front = decimal(n / 10);
        assert(decimal(n).drop_last() =~= front);
        assert forall|i: int| 0 <= i < decimal(n).len() implies is_digit(#[trigger] decimal(n)[i]) by {
            if i < front.len() {
                assert(decimal(n)[i] == front[i]);
            }
        }
    } else {
        assert(decimal(n).drop_last() =~= Seq::<char>::empty());
    }
}

/// A number's notation is read back as the number.
pub proof fn lemma_decimal_read_back(n: u64)
    ensures
        u64_value(decimal(n as nat)) == Some(n as int),
{
    lemma_decimal_value(n as nat);
    assert(is_digit(decimal(n as nat)[0]));
}

/// A number is written digit by digit: the tenfold of a number and a digit is written as the
/// number and then the digit. No number but zero starts with a zero.
pub proof fn law_decimal_by_digits(n: nat, digit: nat)
    requires
        digit < 10,
    ensures
        decimal(digit) == seq!["0123456789"@[digit as int]],
        n > 0 ==> decimal(10 * n + digit) == decimal(n).push("0123456789"@[digit as int]),
        n > 0 ==> decimal(n)[0] != '0',
    decreases n,
{
    reveal_strlit("0123456789");
    assert(digit_char(digit) == "0123456789"@[digit as int]);
    assert((10 * n + digit) / 10 == n && (10 * n + digit) % 10 == digit);
    if n >= 10 {
        law_decimal_by_digits(n / 10, n % 10);
        lemma_decimal_value(n / 10);
        assert(decimal(n)[0] == decimal(n / 10)[0]);
    } else if n > 0 {
        reveal_strlit("0123456789");
    }
}

/// Different numbers are written differently.
pub proof fn law_decimal_is_injective(m: nat, n: nat)
    requires
        decimal(m) == decimal(n),
    ensures
        m == n,
{
    lemma_decimal_value(m);
    lemma_decimal_value(n);
}

/// A further digit makes a text denote the tenfold and the digit.
pub proof fn law_value_by_digits(text: Seq<char>, digit: nat)
    requires
        digit < 10,
    ensures
        digits_value(Seq::empty()) == 0,
        digits_value(text.push("0123456789"@[digit as int])) == 10 * digits_value(text) + digit,
{
    reveal_strlit("0123456789");
    assert(text.push("0123456789"@[digit as int]).drop_last() =~= text);
}

/// Digits are read as the number that they denote, with or without a `+`, and, where numbers
/// have signs, with a `-` as the number below zero, each if it fits.
pub proof fn law_digits_are_read(digits: Seq<char>)
    requires
        digits.len() > 0,
        forall|i: int| 0 <= i < digits.len() ==> '0' <= #[trigger] digits[i] <= '9',
    ensures
        ({
            let v = digits_value(digits) as int;
            let plus = seq!['+'] + digits;
            let minus = seq!['-'] + digits;
            &&& u64_value(digits) == (if v < 0x1_0000_0000_0000_0000 { Some(v) } else { None })
            &&& u64_value(plus) == u64_value(digits)
            &&& u64_value(minus) is None
            &&& u8_value(digits) == (if v < 0x100 { Some(v) } else { None })
            &&& u8_value(plus) == u8_value(digits)
            &&& u8_value(minus) is None
            &&& i32_value(digits) == (if v < 0x8000_0000 { Some(v) } else { None })
            &&& i32_value(plus) == i32_value(digits)
            &&& i32_value(minus) == (if v <= 0x8000_0000 { Some(-v) } else { None })
            &&& i64_value(digits) == (if v < 0x8000_0000_0000_0000 { Some(v) } else { None })
            &&& i64_value(plus) == i64_value(digits)
            &&& i64_value(minus) == (if v <= 0x8000_0000_0000_0000 { Some(-v) } else { None })
        }),
{
    assert((seq!['+'] + digits).skip(1) =~= digits);
    assert((seq!['-'] + digits).skip(1) =~= digits);
    assert('0' <= digits[0] <= '9');
    assert(forall|i: int| 0 <= i < digits.len() ==> is_digit(#[trigger] digits[i]));
    assert(!is_digit((seq!['-'] + digits)[0]));
}

/// A text without a digit, or with anything but a digit behind its first character or anything
/// but a digit or a sign as its first, is read as no number.
pub proof fn law_other_text_is_rejected(text: Seq<char>)
    requires
        text.len() == 0 || (text.len() == 1 && !('0' <= text[0] <= '9')) || (exists|i: int|
            0 <= i < text.len() && !('0' <= #[trigger] text[i] <= '9') && (i > 0 || (text[0] != '+'
                && text[0] != '-'))),
    ensures
        u64_value(text) is None,
        u8_value(text) is None,
        i32_value(text) is None,
        i64_value(text) is None,
{
    if text.len() > 0 {
        let rest = text.skip(1);
        if exists|i: int|
            0 <= i < text.len() && !('0' <= #[trigger] text[i] <= '9') && (i > 0 || (text[0] != '+'
                && text[0] != '-')) {
            let i = choose|i: int|
                0 <= i < text.len() && !('0' <= #[trigger] text[i] <= '9') && (i > 0 || (text[0]
                    != '+' && text[0] != '-'));
            assert(!is_digit(text[i]));
            if i > 0 {
                assert(rest[i - 1] == text[i]);
                assert(!is_digit(rest[i - 1]));
            }
        } else {
            assert(!is_digit(text[0]));
        }
    }
}

/// An error displays a text if it cannot show anything else.
pub proof fn law_int_error_text(error: ParseIntError, text: Seq<char>)
    ensures
        int_error_displays(error, text) <==> forall|shown: String| #[trigger]
            to_string_from_display_ensures::<ParseIntError>(&error, shown) ==> shown@ == text,
{
}

} // verus!
