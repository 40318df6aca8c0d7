//! The requests of the Discord API.
use crate::decimal::{
    decimal, is_digit, is_digits, law_decimal_by_digits, lemma_decimal_read_back,
    lemma_decimal_value, push_decimal, u64_value,
};
use crate::error::Error;
use crate::snowflake::Snowflake;
use crate::text::{law_join, law_join_split, split_on};
use vstd::prelude::*;

verus! {

/// The default address of the Discord API.
pub const DISCORD_API: &'static str = "https://discord.com/api/v10";

/// The path under which a channel is found.
pub open spec fn channel_path(channel: Snowflake) -> Seq<char> {
    "/channels/"@ + decimal(channel.0 as nat)
}

/// The path under which a guild is found.
pub open spec fn guild_path(guild: Snowflake) -> Seq<char> {
    "/guilds/"@ + decimal(guild.0 as nat)
}

/// The path under which a channel's newest messages are found, or the newest of those older
/// than `before`.
pub open spec fn messages_path(channel: Snowflake, before: Option<Snowflake>, limit: u8) -> Seq<
    char,
> {
    match before {
        None => channel_path(channel) + "/messages?limit="@ + decimal(limit as nat),
        Some(id) => channel_path(channel) + "/messages?before="@ + decimal(id.0 as nat)
            + "&limit="@ + decimal(limit as nat),
    }
}

/// A client of the Discord API: what it sends its requests with, and where to.
///
/// Its methods give the complete address of each request. What sends them knows how to
/// authenticate and when to try again.
#[derive(Debug, Clone)]
pub struct DiscordClient<H> {
    http: H,
    base_url: String,
}

impl<H> DiscordClient<H> {
    /// What the client sends its requests with.
    pub closed spec fn sender(self) -> H {
        self.http
    }

    /// What every address starts with.
    pub closed spec fn base(self) -> Seq<char> {
        self.base_url@
    }

    /// A client of the default address. The caller is responsible for baking authentication
    /// into `http` beforehand.
    pub fn new(http: H) -> (client: Self)
        ensures
            client.sender() == http,
            client.base() == DISCORD_API@,
            client.base() == "https://discord.com/api/v10"@,
    {
        DiscordClient { http, base_url: DISCORD_API.to_string() }
    }

    /// The same client with another address (useful against a mock server).
    pub fn with_base_url(self, base_url: String) -> (client: Self)
        ensures
            client.sender() == self.sender(),
            client.base() == base_url@,
    {
        DiscordClient { http: self.http, base_url }
    }

    /// What the client sends its requests with.
    pub fn http(&self) -> (http: &H)
        ensures
            *http == self.sender(),
    {
        &self.http
    }

    /// The address of a path.
    fn url(&self, path: String) -> (url: String)
        ensures
            url@ == self.base() + path@,
    {
        self.base_url.clone().concat(path.as_str())
    }

    /// The address of a channel.
    pub fn get_channel(&self, channel_id: Snowflake) -> (url: String)
        ensures
            url@ == self.base() + channel_path(channel_id),
    {
        let mut path = "/channels/".to_string();
        push_decimal(&mut path, channel_id.0);
        self.url(path)
    }

    /// The address of a guild.
    pub fn get_guild(&self, guild_id: Snowflake) -> (url: String)
        ensures
            url@ == self.base() + guild_path(guild_id),
    {
        let mut path = "/guilds/".to_string();
        push_decimal(&mut path, guild_id.0);
        self.url(path)
    }

    /// The address of a channel's newest messages.
    pub fn get_messages(&self, channel_id: Snowflake, limit: u8) -> (res: Result<String, Error>)
        ensures
            if limit == 0 {
                res matches Err(Error::InvalidLimit)
            } else {
                res matches Ok(url) && url@ == self.base() + messages_path(channel_id, None, limit)
            },
    {
        if limit == 0 {
            return Err(Error::InvalidLimit);
        }
        let mut path = "/channels/".to_string();
        push_decimal(&mut path, channel_id.0);
        path.append("/messages?limit=");
        push_decimal(&mut path, limit as u64);
        Ok(self.url(path))
    }

    /// The address of the newest of a channel's messages that are older than `before_id`.
    pub fn get_messages_before(
        &self,
        channel_id: Snowflake,
        before_id: Snowflake,
        limit: u8,
    ) -> (res: Result<String, Error>)
        ensures
            if limit == 0 {
                res matches Err(Error::InvalidLimit)
            } else {
                res matches Ok(url) && url@ == self.base() + messages_path(
                    channel_id,
                    Some(before_id),
                    limit,
                )
            },
    {
        if limit == 0 {
            return Err(Error::InvalidLimit);
        }
        let mut path = "/channels/".to_string();
        push_decimal(&mut path, channel_id.0);
        path.append("/messages?before=");
        push_decimal(&mut path, before_id.0);
        path.append("&limit=");
        push_decimal(&mut path, limit as u64);
        Ok(self.url(path))
    }
}

/// Digits in front of something else are found again: where two texts with digits in front are
/// the same, the digits are, and what follows them is.
proof fn lemma_digits_in_front(a: Seq<char>, x: Seq<char>, b: Seq<char>, y: Seq<char>)
    requires
        a + x == b + y,
        is_digits(a),
        is_digits(b),
        x.len() > 0 ==> !is_digit(x[0]),
        y.len() > 0 ==> !is_digit(y[0]),
    ensures
        a == b,
        x == y,
{
    let whole = a + x;
    assert(forall|i: int| 0 <= i < a.len() ==> is_digit(#[trigger] a[i]));
    assert(forall|i: int| 0 <= i < b.len() ==> is_digit(#[trigger] b[i]));
    if a.len() < b.len() {
        assert(whole[a.len() as int] == x[0]);
        assert(whole[a.len() as int] == b[a.len() as int]);
    }
    if b.len() < a.len() {
        assert(whole[b.len() as int] == y[0]);
        assert(whole[b.len() as int] == a[b.len() as int]);
    }
    assert(a =~= whole.take(a.len() as int) && b =~= whole.take(b.len() as int));
    assert(x =~= whole.skip(a.len() as int) && y =~= whole.skip(b.len() as int));
}

/// What follows `/channels/` in the path of a channel is digits that are read back as the
/// channel, and likewise for a guild.
pub proof fn law_identifier_ends_path(id: Snowflake)
    ensures
        ({
            let channel = channel_path(id);
            &&& "/channels/"@.is_prefix_of(channel)
            &&& is_digits(channel.skip(10))
            &&& u64_value(channel.skip(10)) == Some(id.0 as int)
            &&& channel.skip(10)[0] == '0' ==> id.0 == 0 && channel.len() == 11
        }),
        ({
            let guild = guild_path(id);
            &&& "/guilds/"@.is_prefix_of(guild)
            &&& is_digits(guild.skip(8))
            &&& u64_value(guild.skip(8)) == Some(id.0 as int)
            &&& guild.skip(8)[0] == '0' ==> id.0 == 0 && guild.len() == 9
        }),
{
    reveal_strlit("/channels/");
    reveal_strlit("/guilds/");
    lemma_decimal_value(id.0 as nat);
    lemma_decimal_read_back(id.0);
    law_decimal_by_digits(id.0 as nat, 0);
    assert(channel_path(id).skip(10) =~= decimal(id.0 as nat));
    assert(guild_path(id).skip(8) =~= decimal(id.0 as nat));
}

/// Different channels have different paths, and so have different guilds.
pub proof fn law_paths_differ(a: Snowflake, b: Snowflake)
    requires
        a != b,
    ensures
        channel_path(a) != channel_path(b),
        guild_path(a) != guild_path(b),
{
    law_identifier_ends_path(a);
    law_identifier_ends_path(b);
}

/// The path of a channel's messages is that of the channel, and then names the identifier that
/// they are to be older than and their number, both of which are read back.
pub proof fn law_messages_path_read_back(channel: Snowflake, before: Snowflake, limit: u8)
    ensures
        ({
            let start = channel_path(channel).len() as int;
            let path = messages_path(channel, None, limit);
            &&& channel_path(channel).is_prefix_of(path)
            &&& "/messages?limit="@.is_prefix_of(path.skip(start))
            &&& u64_value(path.skip(start + 16)) == Some(limit as int)
            &&& is_digits(path.skip(start + 16))
        }),
        ({
            let start = channel_path(channel).len() as int;
            let path = messages_path(channel, Some(before), limit);
            let parts = split_on(path.skip(start + 17), '&');
            &&& channel_path(channel).is_prefix_of(path)
            &&& "/messages?before="@.is_prefix_of(path.skip(start))
            &&& parts.len() == 2
            &&& u64_value(parts[0]) == Some(before.0 as int)
            &&& is_digits(parts[0])
            &&& "limit="@.is_prefix_of(parts[1])
            &&& u64_value(parts[1].skip(6)) == Some(limit as int)
            &&& is_digits(parts[1].skip(6))
        }),
{
    reveal_strlit("/messages?limit=");
    reveal_strlit("/messages?before=");
    reveal_strlit("&limit=");
    reveal_strlit("limit=");
    let id = decimal(before.0 as nat);
    let count = decimal(limit as nat);
    lemma_decimal_value(before.0 as nat);
    lemma_decimal_value(limit as nat);
    lemma_decimal_read_back(before.0);
    lemma_decimal_read_back(limit as u64);
    let start = channel_path(channel).len() as int;
    let path = messages_path(channel, None, limit);
    assert(path.skip(start) =~= "/messages?limit="@ + count);
    assert(path.skip(start + 16) =~= count);
    let path = messages_path(channel, Some(before), limit);
    assert(path.skip(start) =~= "/messages?before="@ + id + "&limit="@ + count);
    let second = "limit="@ + count;
    assert(path.skip(start + 17) =~= id + seq!['&'] + second);
    assert(forall|i: int| 0 <= i < id.len() ==> is_digit(#[trigger] id[i]));
    assert(forall|i: int| 0 <= i < count.len() ==> is_digit(#[trigger] count[i]));
    assert(!id.contains('&'));
    assert(!second.contains('&'));
    let pieces = seq![id, second];
    assert(pieces =~= seq![id].push(second));
    law_join(seq![id], second, seq!['&']);
    law_join(seq![id], id, seq!['&']);
    law_join_split(pieces, '&');
    assert(second.skip(6) =~= count);
}

/// Different requests for messages have different paths.
pub proof fn law_messages_paths_differ(
    channel1: Snowflake,
    before1: Option<Snowflake>,
    limit1: u8,
    channel2: Snowflake,
    before2: Option<Snowflake>,
    limit2: u8,
)
    requires
        messages_path(channel1, before1, limit1) == messages_path(channel2, before2, limit2),
    ensures
        channel1 == channel2,
        before1 == before2,
        limit1 == limit2,
{
    reveal_strlit("/channels/");
    reveal_strlit("/messages?limit=");
    reveal_strlit("/messages?before=");
    let path1 = messages_path(channel1, before1, limit1);
    let path2 = messages_path(channel2, before2, limit2);
    let rest1 = path1.skip(channel_path(channel1).len() as int);
    let rest2 = path2.skip(channel_path(channel2).len() as int);
    lemma_decimal_value(channel1.0 as nat);
    lemma_decimal_value(channel2.0 as nat);
    assert(path1.skip(10) =~= decimal(channel1.0 as nat) + rest1);
    assert(path2.skip(10) =~= decimal(channel2.0 as nat) + rest2);
    assert(rest1[0] == '/' && rest2[0] == '/');
    lemma_digits_in_front(decimal(channel1.0 as nat), rest1, decimal(channel2.0 as nat), rest2);
    let id1 = if before1 is Some { before1->0 } else { channel1 };
    let id2 = if before2 is Some { before2->0 } else { channel2 };
    law_messages_path_read_back(channel1, id1, limit1);
    law_messages_path_read_back(channel2, id2, limit2);
    assert(rest1[10] == (if before1 is Some { 'b' } else { 'l' }));
    assert(rest2[10] == (if before2 is Some { 'b' } else { 'l' }));
}

/// The address of a channel, or of a guild, is read back as the identifier that it was asked
/// for with.
pub proof fn law_address_names_identifier<H>(
    client: DiscordClient<H>,
    id: Snowflake,
    channel_url: String,
    guild_url: String,
)
    requires
        call_ensures(DiscordClient::<H>::get_channel, (&client, id), channel_url),
        call_ensures(DiscordClient::<H>::get_guild, (&client, id), guild_url),
    ensures
        (client.base() + "/channels/"@).is_prefix_of(channel_url@),
        u64_value(channel_url@.skip(client.base().len() + 10int)) == Some(id.0 as int),
        (client.base() + "/guilds/"@).is_prefix_of(guild_url@),
        u64_value(guild_url@.skip(client.base().len() + 8int)) == Some(id.0 as int),
{
    reveal_strlit("/channels/");
    reveal_strlit("/guilds/");
    law_identifier_ends_path(id);
    let start = client.base().len() as int;
    assert(channel_url@.skip(start + 10) =~= channel_path(id).skip(10));
    assert(guild_url@.skip(start + 8) =~= guild_path(id).skip(8));
    assert(channel_url@.subrange(0, start + 10) =~= client.base() + "/channels/"@);
    assert(guild_url@.subrange(0, start + 8) =~= client.base() + "/guilds/"@);
}

/// A client of the default address asks the tenth version of the Discord API, and one with
/// another address asks there. Both send with what they were given.
pub proof fn law_client_address<H>(
    http: H,
    client: DiscordClient<H>,
    base_url: String,
    other: DiscordClient<H>,
)
    requires
        call_ensures(DiscordClient::<H>::new, (http,), client),
        call_ensures(DiscordClient::<H>::with_base_url, (client, base_url), other),
    ensures
        client.base() == "https://discord.com/api/v10"@,
        other.base() == base_url@,
        client.sender() == http,
        other.sender() == http,
{
}

/// Asking for no messages is an error, and asking for any other number of them is not.
pub proof fn law_no_messages_is_an_error<H>(
    client: DiscordClient<H>,
    channel: Snowflake,
    before: Snowflake,
    limit: u8,
    newest: Result<String, Error>,
    older: Result<String, Error>,
)
    requires
        call_ensures(DiscordClient::<H>::get_messages, (&client, channel, limit), newest),
        call_ensures(
            DiscordClient::<H>::get_messages_before,
            (&client, channel, before, limit),
            older,
        ),
    ensures
        limit == 0 ==> newest matches Err(Error::InvalidLimit),
        limit == 0 ==> older matches Err(Error::InvalidLimit),
        limit > 0 ==> newest is Ok && older is Ok,
{
}

} // verus!
