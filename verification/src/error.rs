//! What can go wrong, and how it is reported.
use crate::datetime::Duration;
use crate::decimal::{
    decimal, is_digits, lemma_decimal_read_back, lemma_decimal_value, push_decimal, u64_value,
};
use serde_json::Error as JsonError;
use std::num::ParseIntError;
use vstd::prelude::*;
use vstd::std_specs::convert::FromSpec;
use vstd::string::to_string_from_display_ensures;

verus! {

/// An error of input and output.
#[verifier::external_type_specification]
#[verifier::external_body]
pub struct ExIoError(std::io::Error);

/// An error of the `time` crate: a value could not be formatted.
#[verifier::external_type_specification]
#[verifier::external_body]
pub struct ExFormatError(time::error::Format);

/// An error of the `aho_corasick` crate: an automaton could not be built.
#[verifier::external_type_specification]
#[verifier::external_body]
pub struct ExBuildError(aho_corasick::BuildError);

/// An error of the `serde_json` crate.
#[verifier::external_type_specification]
#[verifier::external_body]
pub struct ExJsonError(JsonError);

#[derive(Debug)]
pub enum Error {
    InvalidLimit,
    InvalidSnowflake(String, ParseIntError),
    InvalidTimestamp(String),
    TimestampTooEarly,
    InvalidWorkerId,
    InvalidSequence,
    TimestampTooLarge,
    InvalidMonthFormat(String),
    MonthOutOfRange(u8),
    MissingToken,
    MissingChannels,
    InvalidLookback(ParseIntError),
    MissingGuildId(String),
    Io(std::io::Error),
    ParseInt(ParseIntError),
    TimeComponentRange(time::error::ComponentRange),
    TimeFormat(time::error::Format),
    AhoCorasick(aho_corasick::BuildError),
    Other(String),
    RateLimited { retry_after: Duration },
    HttpStatus(u16),
    Json(JsonError),
    Reqwest(String),
}

/// Whether `text` is `before`, then something that the value displays.
pub open spec fn ends_in_display<T: std::fmt::Display>(
    before: Seq<char>,
    value: &T,
    text: Seq<char>,
) -> bool {
    exists|shown: String|
        #[trigger] to_string_from_display_ensures::<T>(value, shown) && text == before + shown@
}

impl Error {
    /// Whether `text` is the message of the error.
    pub open spec fn has_message(self, text: Seq<char>) -> bool {
        match self {
            Error::InvalidLimit => text == "limit must be non-zero"@,
            Error::InvalidSnowflake(id, e) => ends_in_display(
                "invalid snowflake '"@ + id@ + "': "@,
                &e,
                text,
            ),
            Error::InvalidTimestamp(why) => text == "invalid timestamp: "@ + why@,
            Error::TimestampTooEarly => text == "timestamp predates the Discord epoch"@,
            Error::InvalidWorkerId => text == "worker_id must be ≤ 1023"@,
            Error::InvalidSequence => text == "sequence must be ≤ 4095"@,
            Error::TimestampTooLarge => text == "timestamp too large for a Discord snowflake"@,
            Error::InvalidMonthFormat(got) => text == "expected yyyyMM, got "@ + got@,
            Error::MonthOutOfRange(month) => text == "month "@ + decimal(month as nat)
                + " is out of range 1–12"@,
            Error::MissingToken => text == "DISCORD_TOKEN not set"@,
            Error::MissingChannels => text == "DISCORD_CHANNEL_IDS not set"@,
            Error::InvalidLookback(e) => ends_in_display(
                "LOOKBACK_MINUTES must be an integer: "@,
                &e,
                text,
            ),
            Error::MissingGuildId(channel) => text == "channel "@ + channel@ + " has no guild_id"@,
            Error::Io(e) => ends_in_display(Seq::empty(), &e, text),
            Error::ParseInt(e) => ends_in_display(Seq::empty(), &e, text),
            Error::TimeComponentRange(e) => ends_in_display(Seq::empty(), &e, text),
            Error::TimeFormat(e) => ends_in_display(Seq::empty(), &e, text),
            Error::AhoCorasick(e) => ends_in_display("URL exclusion filter error: "@, &e, text),
            Error::Other(why) => text == "other error: "@ + why@,
            Error::RateLimited { retry_after } => text == "rate limited, retry after "@
                + crate::datetime::duration_text(
                retry_after.whole_seconds(),
                retry_after.subsecond_nanos(),
            ),
            Error::HttpStatus(status) => text == "HTTP status "@ + decimal(status as nat),
            Error::Json(e) => ends_in_display("JSON error: "@, &e, text),
            Error::Reqwest(why) => text == "Reqwest error: "@ + why@,
        }
    }

    /// The message of the error.
    pub fn to_string(&self) -> (text: String)
        ensures
            self.has_message(text@),
    {
        match self {
            Error::InvalidLimit => "limit must be non-zero".to_string(),
            Error::InvalidSnowflake(id, e) => {
                let shown = e.to_string();
                let before = "invalid snowflake '".to_string().concat(id.as_str()).concat("': ");
                before.concat(shown.as_str())
            },
            Error::InvalidTimestamp(why) => "invalid timestamp: ".to_string().concat(why.as_str()),
            Error::TimestampTooEarly => "timestamp predates the Discord epoch".to_string(),
            Error::InvalidWorkerId => "worker_id must be ≤ 1023".to_string(),
            Error::InvalidSequence => "sequence must be ≤ 4095".to_string(),
            Error::TimestampTooLarge => "timestamp too large for a Discord snowflake".to_string(),
            Error::InvalidMonthFormat(got) => "expected yyyyMM, got ".to_string().concat(
                got.as_str(),
            ),
            Error::MonthOutOfRange(month) => {
                let mut text = "month ".to_string();
                push_decimal(&mut text, *month as u64);
                text.concat(" is out of range 1–12")
            },
            Error::MissingToken => "DISCORD_TOKEN not set".to_string(),
            Error::MissingChannels => "DISCORD_CHANNEL_IDS not set".to_string(),
            Error::InvalidLookback(e) => {
                let shown = e.to_string();
                "LOOKBACK_MINUTES must be an integer: ".to_string().concat(shown.as_str())
            },
            Error::MissingGuildId(channel) => "channel ".to_string().concat(
                channel.as_str(),
            ).concat(" has no guild_id"),
            Error::Io(e) => {
                let shown = e.to_string();
                assert(shown@ =~= Seq::<char>::empty() + shown@);
                shown
            },
            Error::ParseInt(e) => {
                let shown = e.to_string();
                assert(shown@ =~= Seq::<char>::empty() + shown@);
                shown
            },
            Error::TimeComponentRange(e) => {
                let shown = e.to_string();
                assert(shown@ =~= Seq::<char>::empty() + shown@);
                shown
            },
            Error::TimeFormat(e) => {
                let shown = e.to_string();
                assert(shown@ =~= Seq::<char>::empty() + shown@);
                shown
            },
            Error::AhoCorasick(e) => {
                let shown = e.to_string();
                "URL exclusion filter error: ".to_string().concat(shown.as_str())
            },
            Error::Other(why) => "other error: ".to_string().concat(why.as_str()),
            Error::RateLimited { retry_after } => {
                let shown = retry_after.debug_text();
                "rate limited, retry after ".to_string().concat(shown.as_str())
            },
            Error::HttpStatus(status) => {
                let mut text = "HTTP status ".to_string();
                push_decimal(&mut text, *status as u64);
                text
            },
            Error::Json(e) => {
                let shown = e.to_string();
                "JSON error: ".to_string().concat(shown.as_str())
            },
            Error::Reqwest(why) => "Reqwest error: ".to_string().concat(why.as_str()),
        }
    }
}

impl From<std::io::Error> for Error {
    fn from(e: std::io::Error) -> (error: Error) {
        Error::Io(e)
    }
}

impl vstd::std_specs::convert::FromSpecImpl<std::io::Error> for Error {
    open spec fn obeys_from_spec() -> bool {
        true
    }

    open spec fn from_spec(e: std::io::Error) -> Error {
        Error::Io(e)
    }
}

impl From<ParseIntError> for Error {
    fn from(e: ParseIntError) -> (error: Error) {
        Error::ParseInt(e)
    }
}

impl vstd::std_specs::convert::FromSpecImpl<ParseIntError> for Error {
    open spec fn obeys_from_spec() -> bool {
        true
    }

    open spec fn from_spec(e: ParseIntError) -> Error {
        Error::ParseInt(e)
    }
}

impl From<time::error::ComponentRange> for Error {
    fn from(e: time::error::ComponentRange) -> (error: Error) {
        Error::TimeComponentRange(e)
    }
}

impl vstd::std_specs::convert::FromSpecImpl<time::error::ComponentRange> for Error {
    open spec fn obeys_from_spec() -> bool {
        true
    }

    open spec fn from_spec(e: time::error::ComponentRange) -> Error {
        Error::TimeComponentRange(e)
    }
}

impl From<time::error::Format> for Error {
    fn from(e: time::error::Format) -> (error: Error) {
        Error::TimeFormat(e)
    }
}

impl vstd::std_specs::convert::FromSpecImpl<time::error::Format> for Error {
    open spec fn obeys_from_spec() -> bool {
        true
    }

    open spec fn from_spec(e: time::error::Format) -> Error {
        Error::TimeFormat(e)
    }
}

impl From<aho_corasick::BuildError> for Error {
    fn from(e: aho_corasick::BuildError) -> (error: Error) {
        Error::AhoCorasick(e)
    }
}

impl vstd::std_specs::convert::FromSpecImpl<aho_corasick::BuildError> for Error {
    open spec fn obeys_from_spec() -> bool {
        true
    }

    open spec fn from_spec(e: aho_corasick::BuildError) -> Error {
        Error::AhoCorasick(e)
    }
}

impl From<JsonError> for Error {
    fn from(e: JsonError) -> (error: Error) {
        Error::Json(e)
    }
}

impl vstd::std_specs::convert::FromSpecImpl<JsonError> for Error {
    open spec fn obeys_from_spec() -> bool {
        true
    }

    open spec fn from_spec(e: JsonError) -> Error {
        Error::Json(e)
    }
}

/// What a message says of the value that comes with an error: the value stands in it as it is,
/// and a number in it is read back.
pub proof fn law_message_shows_value(error: Error, text: Seq<char>)
    requires
        error.has_message(text),
    ensures
        match error {
            Error::InvalidTimestamp(why) => {
                &&& "invalid timestamp: "@.is_prefix_of(text)
                &&& text.skip(19) == why@
            },
            Error::InvalidMonthFormat(got) => {
                &&& "expected yyyyMM, got "@.is_prefix_of(text)
                &&& text.skip(21) == got@
            },
            Error::MonthOutOfRange(month) => {
                &&& "month "@.is_prefix_of(text)
                &&& " is out of range 1–12"@.is_suffix_of(text)
                &&& u64_value(text.subrange(6, text.len() - 21)) == Some(month as int)
                &&& is_digits(text.subrange(6, text.len() - 21))
            },
            Error::MissingGuildId(channel) => {
                &&& "channel "@.is_prefix_of(text)
                &&& " has no guild_id"@.is_suffix_of(text)
                &&& text.subrange(8, text.len() - 16) == channel@
            },
            Error::Other(why) => {
                &&& "other error: "@.is_prefix_of(text)
                &&& text.skip(13) == why@
            },
            Error::RateLimited { retry_after } => {
                &&& "rate limited, retry after "@.is_prefix_of(text)
                &&& text.skip(26) == crate::datetime::duration_text(
                    retry_after.whole_seconds(),
                    retry_after.subsecond_nanos(),
                )
            },
            Error::HttpStatus(status) => {
                &&& "HTTP status "@.is_prefix_of(text)
                &&& u64_value(text.skip(12)) == Some(status as int)
                &&& is_digits(text.skip(12))
            },
            Error::Reqwest(why) => {
                &&& "Reqwest error: "@.is_prefix_of(text)
                &&& text.skip(15) == why@
            },
            _ => true,
        },
{
    reveal_strlit("invalid timestamp: ");
    reveal_strlit("expected yyyyMM, got ");
    reveal_strlit("month ");
    reveal_strlit(" is out of range 1–12");
    reveal_strlit("channel ");
    reveal_strlit(" has no guild_id");
    reveal_strlit("other error: ");
    reveal_strlit("rate limited, retry after ");
    reveal_strlit("HTTP status ");
    reveal_strlit("Reqwest error: ");
    match error {
        Error::MonthOutOfRange(month) => {
            lemma_decimal_read_back(month as u64);
            lemma_decimal_value(month as nat);
            assert(text.subrange(6, text.len() - 21) =~= decimal(month as nat));
        },
        Error::HttpStatus(status) => {
            lemma_decimal_read_back(status as u64);
            lemma_decimal_value(status as nat);
            assert(text.skip(12) =~= decimal(status as nat));
        },
        _ => {},
    }
}

/// Where an error wraps another, its message ends in what the other displays, behind its own
/// words where it has any.
pub proof fn law_message_ends_in_cause(error: Error, text: Seq<char>)
    requires
        error.has_message(text),
    ensures
        match error {
            Error::InvalidSnowflake(id, e) => exists|shown: String| #[trigger]
                to_string_from_display_ensures::<ParseIntError>(&e, shown) && text
                    == "invalid snowflake '"@ + id@ + "': "@ + shown@,
            Error::InvalidLookback(e) => exists|shown: String| #[trigger]
                to_string_from_display_ensures::<ParseIntError>(&e, shown) && text
                    == "LOOKBACK_MINUTES must be an integer: "@ + shown@,
            Error::Io(e) => exists|shown: String| #[trigger]
                to_string_from_display_ensures::<std::io::Error>(&e, shown) && text == shown@,
            Error::ParseInt(e) => exists|shown: String| #[trigger]
                to_string_from_display_ensures::<ParseIntError>(&e, shown) && text == shown@,
            Error::TimeComponentRange(e) => exists|shown: String| #[trigger]
                to_string_from_display_ensures::<time::error::ComponentRange>(&e, shown) && text
                    == shown@,
            Error::TimeFormat(e) => exists|shown: String| #[trigger]
                to_string_from_display_ensures::<time::error::Format>(&e, shown) && text == shown@,
            Error::AhoCorasick(e) => exists|shown: String| #[trigger]
                to_string_from_display_ensures::<aho_corasick::BuildError>(&e, shown) && text
                    == "URL exclusion filter error: "@ + shown@,
            Error::Json(e) => exists|shown: String| #[trigger]
                to_string_from_display_ensures::<JsonError>(&e, shown) && text == "JSON error: "@
                    + shown@,
            _ => true,
        },
{
    assert forall|s: Seq<char>| #[trigger] (Seq::<char>::empty() + s) == s by {
        assert(Seq::<char>::empty() + s =~= s);
    }
}

/// What an error of settings, arguments or identifiers says.
pub proof fn law_fixed_messages(error: Error, text: Seq<char>)
    requires
        error.has_message(text),
    ensures
        match error {
            Error::InvalidLimit => text == "limit must be non-zero"@,
            Error::TimestampTooEarly => text == "timestamp predates the Discord epoch"@,
            Error::InvalidWorkerId => text == "worker_id must be ≤ 1023"@,
            Error::InvalidSequence => text == "sequence must be ≤ 4095"@,
            Error::TimestampTooLarge => text == "timestamp too large for a Discord snowflake"@,
            Error::MissingToken => text == "DISCORD_TOKEN not set"@,
            Error::MissingChannels => text == "DISCORD_CHANNEL_IDS not set"@,
            _ => true,
        },
{
}

/// An outside error is wrapped as it is, each in the variant for its type.
pub proof fn law_errors_are_wrapped(
    io: std::io::Error,
    number: ParseIntError,
    range: time::error::ComponentRange,
    format: time::error::Format,
    build: aho_corasick::BuildError,
    json: JsonError,
)
    ensures
        <Error as FromSpec<std::io::Error>>::from_spec(io) == Error::Io(io),
        <Error as FromSpec<ParseIntError>>::from_spec(number) == Error::ParseInt(number),
        <Error as FromSpec<time::error::ComponentRange>>::from_spec(range)
            == Error::TimeComponentRange(range),
        <Error as FromSpec<time::error::Format>>::from_spec(format) == Error::TimeFormat(format),
        <Error as FromSpec<aho_corasick::BuildError>>::from_spec(build) == Error::AhoCorasick(
            build,
        ),
        <Error as FromSpec<JsonError>>::from_spec(json) == Error::Json(json),
{
}

} // verus!
