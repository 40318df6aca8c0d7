//! Conversions between identifiers, times and text.
use crate::datetime::{from_calendar_date, Date, UtcDateTime, NANOS_PER_SECOND};
use crate::decimal::{
    digit_char, digits_value, i32_error_text, i32_value, int_error_displays, is_digit, is_digits, parse_i32,
    parse_u8, signed_value, u8_error_text, u8_value, unsigned_value,
};
use crate::error::Error;
use crate::snowflake::Snowflake;
use crate::text::{remove_char, without};
use vstd::prelude::*;
use vstd::utf8::{decode_utf8, encode_utf8, is_ascii_chars, is_char_boundary};

verus! {

/// The first millisecond of the year 2015, counted from the Unix epoch.
pub const DISCORD_EPOCH: i64 = 1_420_070_400_000;

/// Milliseconds since the Unix epoch at which an identifier was made.
pub open spec fn unix_ms(id: Snowflake) -> int {
    id.0 as int / 0x40_0000 + DISCORD_EPOCH
}

/// The number of the worker that made an identifier.
pub open spec fn worker_of(id: Snowflake) -> int {
    id.0 as int / 0x1000 % 0x400
}

/// The number of an identifier among those of its worker and millisecond.
pub open spec fn sequence_of(id: Snowflake) -> int {
    id.0 as int % 0x1000
}

/// The number of the identifier with these three parts.
pub open spec fn compose(ms: int, worker: int, sequence: int) -> int {
    (ms - DISCORD_EPOCH) * 0x40_0000 + worker * 0x1000 + sequence
}

/// Whether an identifier with these three parts exists.
pub open spec fn is_composable(ms: int, worker: int, sequence: int) -> bool {
    &&& 0 <= ms - DISCORD_EPOCH < 0x400_0000_0000
    &&& 0 <= worker < 0x400
    &&& 0 <= sequence < 0x1000
}

/// The instant, to the second, at which an identifier was made, in nanoseconds since the
/// Unix epoch.
pub open spec fn made_at(id: Snowflake) -> int {
    unix_ms(id) / 1000 * NANOS_PER_SECOND
}

/// Milliseconds since the Unix epoch at which an identifier was made.
pub fn snowflake_to_unix_ms(snowflake: Snowflake) -> (res: Result<i64, Error>)
    ensures
        res matches Ok(ms) && ms == unix_ms(snowflake),
        DISCORD_EPOCH <= unix_ms(snowflake) < DISCORD_EPOCH + 0x400_0000_0000,
{
    let id: u64 = snowflake.0;
    assert(id >> 22 == id / 0x40_0000) by (bit_vector);
    assert(id >> 22 < 0x400_0000_0000) by (bit_vector);
    Ok((id >> 22) as i64 + DISCORD_EPOCH)
}

/// The instant, to the second, at which an identifier was made.
pub fn snowflake_to_utc_datetime(snowflake: Snowflake) -> (res: Result<UtcDateTime, Error>)
    ensures
        res matches Ok(t) && t.nanos() == made_at(snowflake) && t.offset() == 0,
{
    let ms = snowflake_to_unix_ms(snowflake)?;
    match UtcDateTime::from_unix_timestamp(ms / 1000) {
        Ok(t) => Ok(t),
        Err(e) => Err(Error::InvalidTimestamp(e.to_string())),
    }
}

/// The identifier made in a millisecond by a worker, as the latter's `sequence`-th.
pub fn unix_ms_to_snowflake(timestamp_ms: i64, worker_id: u16, sequence: u16) -> (res: Result<
    Snowflake,
    Error,
>)
    ensures
        if timestamp_ms < DISCORD_EPOCH {
            res matches Err(Error::TimestampTooEarly)
        } else if worker_id > 0x3FF {
            res matches Err(Error::InvalidWorkerId)
        } else if sequence > 0xFFF {
            res matches Err(Error::InvalidSequence)
        } else if timestamp_ms - DISCORD_EPOCH >= 0x400_0000_0000 {
            res matches Err(Error::TimestampTooLarge)
        } else {
            res matches Ok(id) && id.0 == compose(
                timestamp_ms as int,
                worker_id as int,
                sequence as int,
            )
        },
{
    if timestamp_ms < DISCORD_EPOCH {
        return Err(Error::TimestampTooEarly);
    }
    if worker_id > 0x3FF {
        return Err(Error::InvalidWorkerId);
    }
    if sequence > 0xFFF {
        return Err(Error::InvalidSequence);
    }
    let offset: u64 = (timestamp_ms - DISCORD_EPOCH) as u64;
    assert((offset >> 42 != 0) == (offset >= 0x400_0000_0000)) by (bit_vector);
    if offset >> 42 != 0 {
        return Err(Error::TimestampTooLarge);
    }
    let worker: u64 = worker_id as u64;
    let number: u64 = sequence as u64;
    let snowflake: u64 = (offset << 22) | (worker << 12) | number;
    assert(snowflake == offset * 0x40_0000 + worker * 0x1000 + number) by (bit_vector)
        requires
            snowflake == (offset << 22) | (worker << 12) | number,
            offset < 0x400_0000_0000,
            worker <= 0x3FF,
            number <= 0xFFF,
    ;
    Ok(Snowflake(snowflake))
}

/// The first four bytes of a month's text, which hold its year.
pub open spec fn year_part(month: Seq<char>) -> Seq<char> {
    decode_utf8(encode_utf8(month).subrange(0, 4))
}

/// The last two bytes of a month's text, which hold the month's number.
pub open spec fn month_part(month: Seq<char>) -> Seq<char> {
    decode_utf8(encode_utf8(month).subrange(4, 6))
}

/// Whether a text of six bytes has a character's end after the fourth.
pub open spec fn splits_after_year(month: Seq<char>) -> bool {
    encode_utf8(month).len() == 6 ==> is_char_boundary(encode_utf8(month), 4)
}

/// Reads a month, such as `2023-07` or `202307`, as its first day. Dashes are ignored wherever
/// they stand. A character must not straddle the end of the year.
pub fn parse_month(s: &str) -> (res: Result<Date, Error>)
    requires
        splits_after_year(without(s@, '-')),
    ensures
        ({
            let month = without(s@, '-');
            if encode_utf8(month).len() != 6 {
                res matches Err(Error::InvalidMonthFormat(got)) && got@ == month
            } else if i32_value(year_part(month)) is None {
                res matches Err(Error::ParseInt(e)) && int_error_displays(
                    e,
                    i32_error_text(year_part(month)),
                )
            } else if u8_value(month_part(month)) is None {
                res matches Err(Error::ParseInt(e)) && int_error_displays(
                    e,
                    u8_error_text(month_part(month)),
                )
            } else if !(1 <= u8_value(month_part(month))->0 <= 12) {
                res matches Err(Error::MonthOutOfRange(number)) && number == u8_value(
                    month_part(month),
                )->0
            } else {
                &&& res matches Ok(date)
                &&& date.year == i32_value(year_part(month))->0
                &&& date.month == u8_value(month_part(month))->0
                &&& date.day == 1
            }
        }),
{
    let s = remove_char(s, '-');
    let text = s.as_str();
    if text.as_bytes().len() != 6 {
        return Err(Error::InvalidMonthFormat(s));
    }
    let (year_text, month_text) = text.split_at(4);
    proof {
        vstd::utf8::encode_utf8_decode_utf8(year_text@);
        vstd::utf8::encode_utf8_decode_utf8(month_text@);
    }
    let year: i32 = match parse_i32(year_text) {
        Ok(year) => year,
        Err(e) => return Err(Error::ParseInt(e)),
    };
    let month: u8 = match parse_u8(month_text) {
        Ok(month) => month,
        Err(e) => return Err(Error::ParseInt(e)),
    };
    if !(1 <= month && month <= 12) {
        return Err(Error::MonthOutOfRange(month));
    }
    proof {
        lemma_year_range(text@);
    }
    match from_calendar_date(year, month, 1) {
        Ok(date) => Ok(date),
        Err(e) => Err(Error::TimeComponentRange(e)),
    }
}

/// A text has no more characters than bytes.
proof fn lemma_chars_le_bytes(text: Seq<char>)
    ensures
        text.len() <= encode_utf8(text).len(),
    decreases text.len(),
{
    if text.len() > 0 {
        lemma_chars_le_bytes(text.drop_first());
    }
}

/// Four digits denote at most 9999.
proof fn lemma_digits_bound(text: Seq<char>)
    requires
        is_digits(text),
        text.len() <= 4,
    ensures
        digits_value(text) <= 9999,
{
    reveal_with_fuel(digits_value, 5);
    assert forall|i: int| 0 <= i < text.len() implies is_digit(#[trigger] text[i]) by {}
    if text.len() >= 2 {
        assert(text.drop_last().last() == text[text.len() - 2]);
    }
    if text.len() >= 3 {
        assert(text.drop_last().drop_last().last() == text[text.len() - 3]);
    }
    if text.len() >= 4 {
        assert(text.drop_last().drop_last().drop_last().last() == text[text.len() - 4]);
    }
}

/// The year of a month without dashes is never negative and has at most four digits.
proof fn lemma_year_range(month: Seq<char>)
    requires
        encode_utf8(month).len() == 6,
        is_char_boundary(encode_utf8(month), 4),
        !month.contains('-'),
        i32_value(year_part(month)) is Some,
    ensures
        0 <= i32_value(year_part(month))->0 <= 9999,
{
    let bytes = encode_utf8(month);
    let year = year_part(month);
    vstd::utf8::encode_utf8_valid_utf8(month);
    vstd::utf8::encode_utf8_decode_utf8(month);
    vstd::utf8::decode_utf8_split(bytes, 4);
    vstd::utf8::valid_utf8_split(bytes, 4);
    vstd::utf8::decode_utf8_encode_utf8(bytes.subrange(0, 4));
    lemma_chars_le_bytes(year);
    if year.len() > 0 {
        assert(month[0] == year[0]);
    }
    let digits = if year.len() > 0 && year[0] == '+' {
        year.skip(1)
    } else {
        year
    };
    assert(signed_value(year) == unsigned_value(year));
    lemma_digits_bound(digits);
}

/// In an ASCII text without its dashes, six characters are four of the year and two of the
/// month's number.
pub proof fn lemma_ascii_month(s: Seq<char>)
    requires
        is_ascii_chars(s),
    ensures
        ({
            let month = without(s, '-');
            &&& splits_after_year(month)
            &&& encode_utf8(month).len() == month.len()
            &&& month.len() == 6 ==> year_part(month) == month.subrange(0, 4) && month_part(month)
                == month.subrange(4, 6)
        }),
{
    let month = without(s, '-');
    assert forall|i: int| 0 <= i < month.len() implies '\0' <= #[trigger] month[i] <= '\u{7f}' by {
        crate::text::lemma_without(s, '-');
        assert(s.contains(month[i]));
    }
    vstd::utf8::is_ascii_chars_encode_utf8(month);
    if month.len() == 6 {
        let head = month.subrange(0, 4);
        let tail = month.subrange(4, 6);
        vstd::utf8::is_ascii_chars_encode_utf8(head);
        vstd::utf8::is_ascii_chars_encode_utf8(tail);
        vstd::utf8::encode_utf8_valid_utf8(month);
        vstd::utf8::encode_utf8_decode_utf8(head);
        vstd::utf8::encode_utf8_decode_utf8(tail);
        assert(encode_utf8(month).subrange(0, 4) =~= encode_utf8(head));
        assert(encode_utf8(month).subrange(4, 6) =~= encode_utf8(tail));
        vstd::utf8::is_char_boundary_iff_not_is_continuation_byte(encode_utf8(month), 4);
    }
}

/// The parts of an identifier are read back from it.
pub proof fn law_parts_read_back(id: Snowflake, ms: int, worker: int, sequence: int)
    requires
        is_composable(ms, worker, sequence),
        id.0 == compose(ms, worker, sequence),
    ensures
        unix_ms(id) == ms,
        worker_of(id) == worker,
        sequence_of(id) == sequence,
{
}

/// Every identifier is the one that its parts make.
pub proof fn law_parts_make_identifier(id: Snowflake)
    ensures
        is_composable(unix_ms(id), worker_of(id), sequence_of(id)),
        compose(unix_ms(id), worker_of(id), sequence_of(id)) == id.0,
{
}

/// Different parts make different identifiers.
pub proof fn law_identifiers_are_unique(
    ms1: int,
    worker1: int,
    sequence1: int,
    ms2: int,
    worker2: int,
    sequence2: int,
)
    requires
        is_composable(ms1, worker1, sequence1),
        is_composable(ms2, worker2, sequence2),
        compose(ms1, worker1, sequence1) == compose(ms2, worker2, sequence2),
    ensures
        ms1 == ms2,
        worker1 == worker2,
        sequence1 == sequence2,
{
}

/// Identifiers are ordered by the time at which they were made: a smaller one was not made
/// later, and one made in an earlier millisecond is smaller.
pub proof fn law_identifiers_follow_time(a: Snowflake, b: Snowflake)
    ensures
        a.0 <= b.0 ==> unix_ms(a) <= unix_ms(b) && made_at(a) <= made_at(b),
        unix_ms(a) < unix_ms(b) ==> a.0 < b.0,
{
}

/// A month as four digits of its year and two of its number.
pub open spec fn month_text(year: nat, month: nat) -> Seq<char> {
    seq![
        digit_char(year / 1000),
        digit_char(year / 100 % 10),
        digit_char(year / 10 % 10),
        digit_char(year % 10),
        digit_char(month / 10),
        digit_char(month % 10),
    ]
}

/// A month written as `yyyyMM`, with dashes anywhere or none, is read back.
pub proof fn law_month_read_back(s: Seq<char>, year: nat, month: nat)
    requires
        year <= 9999,
        1 <= month <= 12,
        without(s, '-') == month_text(year, month),
    ensures
        ({
            let text = without(s, '-');
            &&& splits_after_year(text)
            &&& encode_utf8(text).len() == 6
            &&& i32_value(year_part(text)) == Some(year as int)
            &&& u8_value(month_part(text)) == Some(month as int)
        }),
{
    let text = month_text(year, month);
    assert(without(text, '-') =~= text) by {
        reveal_with_fuel(Seq::filter, 7);
        assert(text.drop_last() =~= text.take(5));
        assert(text.take(5).drop_last() =~= text.take(4));
        assert(text.take(4).drop_last() =~= text.take(3));
        assert(text.take(3).drop_last() =~= text.take(2));
        assert(text.take(2).drop_last() =~= text.take(1));
        assert(text.take(1).drop_last() =~= text.take(0));
    }
    lemma_ascii_month(text);
    let y = text.subrange(0, 4);
    let m = text.subrange(4, 6);
    reveal_with_fuel(digits_value, 5);
    assert(y.drop_last().drop_last().drop_last().drop_last() =~= Seq::<char>::empty());
    assert(m.drop_last().drop_last() =~= Seq::<char>::empty());
    assert(digits_value(y) == year);
    assert(digits_value(m) == month);
}

/// An identifier holds, from its highest bit to its lowest, 42 bits of milliseconds since the
/// start of the year 2015, ten of the worker and twelve of the sequence. It was made in the
/// second that those milliseconds fall into.
pub proof fn law_bits_of_identifier(id: Snowflake)
    ensures
        unix_ms(id) == (id.0 >> 22) as int + 1_420_070_400_000,
        worker_of(id) == ((id.0 >> 12) & 0x3FF) as int,
        sequence_of(id) == (id.0 & 0xFFF) as int,
        made_at(id) <= unix_ms(id) * 1_000_000 < made_at(id) + 1_000_000_000,
        made_at(id) % 1_000_000_000 == 0,
{
    let n: u64 = id.0;
    assert(n >> 22 == n / 0x40_0000) by (bit_vector);
    assert((n >> 12) & 0x3FF == n / 0x1000 % 0x400) by (bit_vector);
    assert(n & 0xFFF == n % 0x1000) by (bit_vector);
}

/// An identifier is made by placing its parts in its bits.
pub proof fn law_bits_of_parts(offset: u64, worker: u64, sequence: u64)
    requires
        offset < 0x400_0000_0000,
        worker < 0x400,
        sequence < 0x1000,
    ensures
        compose(1_420_070_400_000 + offset, worker as int, sequence as int) == (offset << 22)
            | (worker << 12) | sequence,
{
    assert((offset << 22) | (worker << 12) | sequence == offset * 0x40_0000 + worker * 0x1000
        + sequence) by (bit_vector)
        requires
            offset < 0x400_0000_0000,
            worker < 0x400,
            sequence < 0x1000,
    ;
}

/// There are identifiers for every millisecond from the start of the year 2015 on that can be
/// counted in 42 bits, for workers that can be in ten, and for sequences that can be in twelve.
pub proof fn law_which_identifiers_exist(ms: int, worker: int, sequence: int)
    ensures
        is_composable(ms, worker, sequence) <==> {
            &&& 1_420_070_400_000 <= ms <= 1_420_070_400_000 + 4_398_046_511_103
            &&& 0 <= worker <= 1023
            &&& 0 <= sequence <= 4095
        },
{
}

/// The bytes of two texts in a row are the bytes of the one and then of the other.
proof fn lemma_bytes_of_both(a: Seq<char>, b: Seq<char>)
    ensures
        encode_utf8(a + b) == encode_utf8(a) + encode_utf8(b),
    decreases a.len(),
{
    if a.len() == 0 {
        assert(a + b =~= b);
        assert(encode_utf8(a) + encode_utf8(b) =~= encode_utf8(b));
    } else {
        lemma_bytes_of_both(a.drop_first(), b);
        assert((a + b).drop_first() =~= a.drop_first() + b);
        assert(encode_utf8(a + b) =~= encode_utf8(a) + encode_utf8(b));
    }
}

/// A month's text is its year, of four bytes, and then its number, of two.
pub proof fn law_parts_of_month(year: Seq<char>, number: Seq<char>)
    requires
        encode_utf8(year).len() == 4,
        encode_utf8(number).len() == 2,
    ensures
        splits_after_year(year + number),
        encode_utf8(year + number).len() == 6,
        year_part(year + number) == year,
        month_part(year + number) == number,
{
    let month = year + number;
    lemma_bytes_of_both(year, number);
    let bytes = encode_utf8(month);
    assert(bytes.subrange(0, 4) =~= encode_utf8(year));
    assert(bytes.subrange(4, 6) =~= encode_utf8(number));
    vstd::utf8::encode_utf8_decode_utf8(year);
    vstd::utf8::encode_utf8_decode_utf8(number);
    vstd::utf8::encode_utf8_valid_utf8(month);
    vstd::utf8::encode_utf8_valid_utf8(number);
    vstd::utf8::is_char_boundary_start_end_of_seq(encode_utf8(number));
    vstd::utf8::is_char_boundary_iff_not_is_continuation_byte(encode_utf8(number), 0);
    vstd::utf8::is_char_boundary_iff_not_is_continuation_byte(bytes, 4);
    assert(bytes[4] == encode_utf8(number)[0]);
}

/// A text of another length is in order, whatever its characters are.
pub proof fn law_other_lengths_are_in_order(month: Seq<char>)
    requires
        encode_utf8(month).len() != 6,
    ensures
        splits_after_year(month),
{
}

/// The time that an identifier is made for is the time that is read back from it, and an
/// identifier can be made for every time, worker and sequence that fit.
pub proof fn law_identifier_keeps_time(
    timestamp_ms: i64,
    worker_id: u16,
    sequence: u16,
    made: Result<Snowflake, Error>,
    id: Snowflake,
    read: Result<i64, Error>,
)
    requires
        call_ensures(unix_ms_to_snowflake, (timestamp_ms, worker_id, sequence), made),
        call_ensures(snowflake_to_unix_ms, (id,), read),
    ensures
        made is Ok <==> 1_420_070_400_000 <= timestamp_ms <= 1_420_070_400_000
            + 4_398_046_511_103 && worker_id <= 1023 && sequence <= 4095,
        made == Ok::<_, Error>(id) ==> read == Ok::<_, Error>(timestamp_ms),
{
}

/// A month written as `yyyyMM`, with dashes anywhere or none, is read as its first day.
pub proof fn law_month_is_read(s: &str, year: nat, month: nat, res: Result<Date, Error>)
    requires
        year <= 9999,
        1 <= month <= 12,
        without(s@, '-') == month_text(year, month),
        call_ensures(parse_month, (s,), res),
    ensures
        res matches Ok(date) && date.year == year && date.month == month && date.day == 1,
{
    law_month_read_back(s@, year, month);
}

/// A month is read only from six bytes besides the dashes, and only where its number is between
/// one and twelve.
pub proof fn law_which_months_are_read(s: &str, res: Result<Date, Error>)
    requires
        call_ensures(parse_month, (s,), res),
        res is Ok,
    ensures
        encode_utf8(without(s@, '-')).len() == 6,
        1 <= res->Ok_0.month <= 12,
        res->Ok_0.day == 1,
        u8_value(month_part(without(s@, '-'))) == Some(res->Ok_0.month as int),
        i32_value(year_part(without(s@, '-'))) == Some(res->Ok_0.year as int),
{
}

} // verus!
