//! Discord identifiers.
use crate::decimal::{decimal, int_error_displays, parse_u64, push_decimal, u64_error_text, u64_value};
use std::num::ParseIntError;
use vstd::prelude::*;

verus! {

/// A Discord Snowflake (ID). Transmitted as a string in JSON, but 64-bit internally.
#[derive(Debug, Clone, Copy, PartialEq, Eq, Hash, PartialOrd, Ord, Structural)]
pub struct Snowflake(pub u64);

impl Snowflake {
    /// Reads an identifier from its decimal notation.
    pub fn from_str(s: &str) -> (res: Result<Snowflake, ParseIntError>)
        ensures
            match res {
                Ok(id) => u64_value(s@) == Some(id.0 as int),
                Err(e) => u64_value(s@) is None && int_error_displays(e, u64_error_text(s@)),
            },
    {
        match parse_u64(s) {
            Ok(id) => Ok(Snowflake(id)),
            Err(e) => Err(e),
        }
    }

    /// The decimal notation of the identifier.
    pub fn to_string(&self) -> (text: String)
        ensures
            text@ == decimal(self.0 as nat),
    {
        let mut text = String::new();
        push_decimal(&mut text, self.0);
        assert(text@ =~= decimal(self.0 as nat));
        text
    }
}

impl std::str::FromStr for Snowflake {
    type Err = ParseIntError;

    fn from_str(s: &str) -> (res: Result<Snowflake, ParseIntError>)
        ensures
            match res {
                Ok(id) => u64_value(s@) == Some(id.0 as int),
                Err(e) => u64_value(s@) is None && int_error_displays(e, u64_error_text(s@)),
            },
    {
        Snowflake::from_str(s)
    }
}

/// An identifier's notation is read back as the identifier.
pub proof fn law_text_round_trip(id: Snowflake)
    ensures
        u64_value(decimal(id.0 as nat)) == Some(id.0 as int),
{
    crate::decimal::lemma_decimal_read_back(id.0);
}

/// The text of an identifier is read back as the identifier, and as no other.
pub proof fn law_text_is_read_back(
    id: Snowflake,
    text: String,
    s: &str,
    read: Result<Snowflake, ParseIntError>,
)
    requires
        call_ensures(Snowflake::to_string, (&id,), text),
        call_ensures(Snowflake::from_str, (s,), read),
        s@ == text@,
    ensures
        read == Ok::<_, ParseIntError>(id),
{
    law_text_round_trip(id);
}

} // verus!
