//! What Discord answers.
use crate::datetime::UtcDateTime;
use crate::error::Error;
use crate::snowflake::Snowflake;
use crate::utils::{made_at, snowflake_to_utc_datetime};
use vstd::prelude::*;

verus! {

#[derive(Debug, Clone)]
pub struct Channel {
    pub id: Snowflake,
    pub channel_type: u8,
    pub name: Option<String>,
    pub guild_id: Option<Snowflake>,
}

#[derive(Debug, Clone)]
pub struct Guild {
    pub id: Snowflake,
    pub name: String,
}

#[derive(Debug, Clone)]
pub struct User {
    pub id: Snowflake,
    pub username: String,
    pub global_name: Option<String>,
    pub bot: bool,
}

#[derive(Debug, Clone)]
pub struct Message {
    pub id: Snowflake,
    pub channel_id: Snowflake,
    pub guild_id: Option<Snowflake>,
    pub author: User,
    pub content: String,
    pub timestamp: UtcDateTime,
    pub attachments: Vec<Attachment>,
    pub embeds: Vec<Embed>,
    pub message_reference: Option<MessageReference>,
}

#[derive(Debug, Clone)]
pub struct Attachment {
    pub id: Snowflake,
    pub filename: String,
    pub url: String,
    pub content_type: Option<String>,
}

#[derive(Debug, Clone)]
pub struct Embed {
    pub url: Option<String>,
    pub title: Option<String>,
    pub description: Option<String>,
}

#[derive(Debug, Clone)]
pub struct MessageReference {
    pub message_id: Option<Snowflake>,
    pub channel_id: Option<Snowflake>,
    pub guild_id: Option<Snowflake>,
}

impl Message {
    /// The instant, to the second, at which the message's identifier was made.
    pub fn timestamp(&self) -> (res: Result<UtcDateTime, Error>)
        ensures
            res matches Ok(t) && t.nanos() == made_at(self.id) && t.offset() == 0,
    {
        snowflake_to_utc_datetime(self.id)
    }
}

/// A message was made in the second that the upper 42 bits of its identifier fall into, which
/// count milliseconds from the start of the year 2015.
pub proof fn law_message_is_made_in_second(message: Message, res: Result<UtcDateTime, Error>)
    requires
        call_ensures(Message::timestamp, (&message,), res),
    ensures
        ({
            let ms = (message.id.0 >> 22) as int + 1_420_070_400_000;
            &&& res matches Ok(t)
            &&& t.nanos() % 1_000_000_000 == 0
            &&& t.nanos() <= ms * 1_000_000 < t.nanos() + 1_000_000_000
            &&& t.offset() == 0
        }),
{
    crate::utils::law_bits_of_identifier(message.id);
}

} // verus!
