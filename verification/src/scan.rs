//! Finding the links that were posted in a channel.
//!
//! A scan makes one request at a time. Each of its stages takes in the reply to the request of
//! the stage before it, and gives the next stage and the next request.
use crate::client::{
    channel_path, guild_path, law_identifier_ends_path, messages_path, DiscordClient,
};
use crate::datetime::{Bound, DateRange};
use crate::decimal::{decimal, lemma_decimal_read_back, u64_value};
use crate::error::Error;
use crate::links::{
    assign_guild, collect_links, found_links, is_excluded, keep_links, kept_links, law_kept_links,
    law_links_of_message, law_links_of_messages, links_of, links_of_all, Excluder,
};
use crate::model::{Channel, Embed, Guild, Message};
use crate::paging::{
    absorb, batch_size, decide, end_second, first_before, initial, Decision, FetchStep, RangeFetch,
};
use crate::paging_laws::{
    all_in_window, law_fetch_covers_range, law_fetch_finds_message, outcome,
};
use crate::snowflake::Snowflake;
use crate::text::texts;
use crate::utils::DISCORD_EPOCH;
use vstd::prelude::*;

verus! {

/// A scan that waits for its channel.
#[derive(Debug)]
pub struct AwaitChannel {
    pub channel_id: Snowflake,
    pub range: DateRange,
}

/// A scan that waits for its channel's guild.
#[derive(Debug)]
pub struct AwaitGuild {
    pub channel_id: Snowflake,
    pub range: DateRange,
    pub channel_name: Option<String>,
    pub guild_id: Snowflake,
}

/// A scan that waits for messages.
#[derive(Debug)]
pub struct AwaitMessages {
    pub fetch: RangeFetch,
    pub channel_name: Option<String>,
    pub guild_id: Snowflake,
    pub server_name: String,
}

/// What a scan has found.
#[derive(Debug)]
pub struct LinkReport {
    pub channel_name: Option<String>,
    pub server_name: String,
    /// The links of interest, in the order of the messages.
    pub kept: Vec<String>,
    /// The number of the other links.
    pub excluded: usize,
    /// The newest message in the range, if there is any.
    pub first: Option<FirstMessage>,
    /// Whether time ran out before all messages had come.
    pub timed_out: bool,
}

/// What is told of the newest message of a scan.
#[derive(Debug)]
pub struct FirstMessage {
    pub id: Snowflake,
    pub content: String,
}

/// Whether `first` tells of the first of the messages.
pub open spec fn is_first_of(first: Option<FirstMessage>, messages: Seq<Message>) -> bool {
    match first {
        Some(first) => {
            &&& messages.len() > 0
            &&& first.id == messages[0].id
            &&& first.content@ == messages[0].content@
        },
        None => messages.len() == 0,
    }
}

/// What is told of the newest of some messages.
fn first_of(messages: &Vec<Message>) -> (first: Option<FirstMessage>)
    ensures
        is_first_of(first, messages@),
{
    if messages.len() == 0 {
        None
    } else {
        Some(FirstMessage { id: messages[0].id, content: messages[0].content.clone() })
    }
}

/// What a scan does next.
#[derive(Debug)]
pub enum ScanStep {
    /// Get the messages at an address, and hand them to the scan.
    Request(AwaitMessages, String),
    /// The scan is complete.
    Done(LinkReport),
    /// The scan has failed.
    Fail(Error),
}

/// Starts to scan a channel for the links posted in a range of time: the scan, and the address
/// of the channel.
pub fn fetch_channel_links<H>(
    client: &DiscordClient<H>,
    channel_id: Snowflake,
    range: DateRange,
) -> (res: (AwaitChannel, String))
    ensures
        res.0 == (AwaitChannel { channel_id, range }),
        res.1@ == client.base() + channel_path(channel_id),
{
    (AwaitChannel { channel_id, range }, client.get_channel(channel_id))
}

impl AwaitChannel {
    /// Takes in the channel. The next request is for its guild, without which there is no scan.
    pub fn on_channel<H>(self, client: &DiscordClient<H>, reply: Result<Channel, Error>) -> (res:
        Result<(AwaitGuild, String), Error>)
        ensures
            match reply {
                Err(e) => res == Err::<(AwaitGuild, String), Error>(e),
                Ok(channel) => match channel.guild_id {
                    None => res matches Err(Error::MissingGuildId(id)) && id@ == decimal(
                        self.channel_id.0 as nat,
                    ),
                    Some(guild_id) => {
                        &&& res matches Ok((next, url))
                        &&& next == (AwaitGuild {
                            channel_id: self.channel_id,
                            range: self.range,
                            channel_name: channel.name,
                            guild_id,
                        })
                        &&& url@ == client.base() + guild_path(guild_id)
                    },
                },
            },
    {
        match reply {
            Err(e) => Err(e),
            Ok(channel) => match channel.guild_id {
                None => Err(Error::MissingGuildId(self.channel_id.to_string())),
                Some(guild_id) => {
                    let url = client.get_guild(guild_id);
                    let next = AwaitGuild {
                        channel_id: self.channel_id,
                        range: self.range,
                        channel_name: channel.name,
                        guild_id,
                    };
                    Ok((next, url))
                },
            },
        }
    }
}

impl AwaitGuild {
    /// Takes in the guild. The next request is for the first batch of messages.
    pub fn on_guild<H>(self, client: &DiscordClient<H>, reply: Result<Guild, Error>) -> (res: Result<
        (AwaitMessages, String),
        Error,
    >)
        ensures
            match reply {
                Err(e) => res == Err::<(AwaitMessages, String), Error>(e),
                Ok(guild) => if end_second(self.range) matches Some(second) && second * 1000
                    < DISCORD_EPOCH {
                    res matches Err(Error::TimestampTooEarly)
                } else if end_second(self.range) matches Some(second) && second * 1000
                    - DISCORD_EPOCH >= 0x400_0000_0000 {
                    res matches Err(Error::TimestampTooLarge)
                } else {
                    &&& res matches Ok((next, url))
                    &&& next.fetch@ == initial(self.channel_id, self.range, None)
                    &&& next.channel_name == self.channel_name
                    &&& next.guild_id == self.guild_id
                    &&& next.server_name == guild.name
                    &&& url@ == client.base() + messages_path(
                        self.channel_id,
                        first_before(self.range),
                        100,
                    )
                },
            },
    {
        match reply {
            Err(e) => Err(e),
            Ok(guild) => match client.get_messages_range(self.channel_id, self.range, None) {
                Err(e) => Err(e),
                Ok((fetch, url)) => {
                    let next = AwaitMessages {
                        fetch,
                        channel_name: self.channel_name,
                        guild_id: self.guild_id,
                        server_name: guild.name,
                    };
                    Ok((next, url))
                },
            },
        }
    }
}

impl AwaitMessages {
    /// Takes in a batch of messages. `now` is a reading, in nanoseconds, of a clock that never
    /// goes back.
    pub fn on_messages<H>(
        self,
        client: &DiscordClient<H>,
        reply: Result<Vec<Message>, Error>,
        now: u128,
        excluder: &Excluder,
    ) -> (step: ScanStep)
        ensures
            match reply {
                Err(e) => step == ScanStep::Fail(e),
                Ok(batch) => match decide(self.fetch@, batch@, now) {
                    Decision::Finish { timed_out } => {
                        let messages = absorb(self.fetch@, batch@, now).messages;
                        let links = links_of_all(messages);
                        &&& step matches ScanStep::Done(report)
                        &&& texts(report.kept@) == kept_links(links)
                        &&& report.excluded == links.len() - kept_links(links).len()
                        &&& report.channel_name == self.channel_name
                        &&& report.server_name == self.server_name
                        &&& is_first_of(report.first, messages)
                        &&& report.timed_out == timed_out
                    },
                    Decision::Ask { before, count } => {
                        &&& step matches ScanStep::Request(next, url)
                        &&& next.fetch@ == absorb(self.fetch@, batch@, now)
                        &&& next.channel_name == self.channel_name
                        &&& next.guild_id == self.guild_id
                        &&& next.server_name == self.server_name
                        &&& url@ == client.base() + messages_path(
                            self.fetch@.channel,
                            before,
                            count as u8,
                        )
                    },
                },
            },
    {
        let AwaitMessages { fetch, channel_name, guild_id, server_name } = self;
        match fetch.step(client, reply, now) {
            FetchStep::Fail(e) => ScanStep::Fail(e),
            FetchStep::Request(fetch, url) => {
                let next = AwaitMessages { fetch, channel_name, guild_id, server_name };
                ScanStep::Request(next, url)
            },
            FetchStep::Done { messages, timed_out } => {
                let first = first_of(&messages);
                let (kept, excluded) = report_links(messages, guild_id, excluder);
                ScanStep::Done(
                    LinkReport { channel_name, server_name, kept, excluded, first, timed_out },
                )
            },
        }
    }
}

/// The links of interest in a guild's messages, and the number of the other links.
pub fn report_links(messages: Vec<Message>, guild_id: Snowflake, excluder: &Excluder) -> (res: (
    Vec<String>,
    usize,
))
    ensures
        texts(res.0@) == kept_links(links_of_all(messages@)),
        res.1 == links_of_all(messages@).len() - kept_links(links_of_all(messages@)).len(),
{
    let ghost before = messages@;
    let mut messages = messages;
    assign_guild(&mut messages, guild_id);
    proof {
        lemma_links_without_guild(before, messages@);
    }
    let links = collect_links(&messages);
    keep_links(links, excluder)
}

/// Links do not depend on the guild that is noted in a message.
proof fn lemma_links_without_guild(a: Seq<Message>, b: Seq<Message>)
    requires
        a.len() == b.len(),
        forall|i: int|
            #![trigger a[i]]
            0 <= i < a.len() ==> a[i].content == b[i].content && a[i].attachments
                == b[i].attachments && a[i].embeds == b[i].embeds,
    ensures
        links_of_all(a) == links_of_all(b),
    decreases a.len(),
{
    if a.len() > 0 {
        lemma_links_without_guild(a.drop_last(), b.drop_last());
        assert(a[a.len() - 1].content == b[b.len() - 1].content);
    }
}

/// Against a channel whose history is answered newest first, and while the clock stays within
/// five minutes, a scan reports exactly the links of interest of all messages in the range.
pub proof fn law_scan_finds_all_links(
    channel: Snowflake,
    range: DateRange,
    history: Seq<Message>,
    clock: spec_fn(nat) -> u128,
    turns: nat,
)
    requires
        forall|i: int, j: int|
            0 <= i < j < history.len() ==> (#[trigger] history[i]).id.0 > (
            #[trigger] history[j]).id.0,
        match range.end {
            Bound::Included(end) => 0 <= end.nanos() / 1_000_000_000 * 1000 - 1_420_070_400_000
                < 0x400_0000_0000,
            Bound::Excluded(end) => 0 <= end.nanos() / 1_000_000_000 * 1000 - 1_420_070_400_000
                < 0x400_0000_0000,
            Bound::Unbounded => true,
        },
        forall|t: nat| #[trigger] clock(t) < clock(0) + 300_000_000_000,
        turns > history.len(),
    ensures
        ({
            let wanted = history.filter(
                |m: Message|
                    {
                        let t = (m.id.0 as int / 0x40_0000 + 1_420_070_400_000) / 1000
                            * 1_000_000_000;
                        &&& match range.start {
                            Bound::Included(start) => start.nanos() <= t,
                            Bound::Excluded(start) => start.nanos() < t,
                            Bound::Unbounded => true,
                        }
                        &&& match range.end {
                            Bound::Included(end) => t <= end.nanos(),
                            Bound::Excluded(end) => t < end.nanos(),
                            Bound::Unbounded => true,
                        }
                    },
            );
            let result = outcome(
                initial(channel, range, None),
                history,
                first_before(range),
                batch_size(None, 0),
                clock,
                0,
                turns,
            );
            &&& result is Some
            &&& kept_links(links_of_all(result->0)) == kept_links(links_of_all(wanted))
            &&& kept_links(links_of_all(result->0)) == kept_links(
                links_of_all(all_in_window(history, range)),
            )
        }),
{
    law_fetch_covers_range(channel, range, None, history, clock, turns);
}

/// Where a message of the history is in the range, a scan in time reports each link in its
/// content, each of its attachments and each of its embeds with an address, unless one of the
/// texts of no interest stands in it.
pub proof fn law_scan_reports_link(
    channel: Snowflake,
    range: DateRange,
    history: Seq<Message>,
    clock: spec_fn(nat) -> u128,
    turns: nat,
    at: int,
    url: Seq<char>,
)
    requires
        forall|i: int, j: int|
            0 <= i < j < history.len() ==> (#[trigger] history[i]).id.0 > (
            #[trigger] history[j]).id.0,
        match range.end {
            Bound::Included(end) => 0 <= end.nanos() / 1_000_000_000 * 1000 - 1_420_070_400_000
                < 0x400_0000_0000,
            Bound::Excluded(end) => 0 <= end.nanos() / 1_000_000_000 * 1000 - 1_420_070_400_000
                < 0x400_0000_0000,
            Bound::Unbounded => true,
        },
        forall|t: nat| #[trigger] clock(t) < clock(0) + 300_000_000_000,
        turns > history.len(),
        0 <= at < history.len(),
        ({
            let t = ((history[at].id.0 >> 22) as int + 1_420_070_400_000) / 1000 * 1_000_000_000;
            &&& match range.start {
                Bound::Included(start) => start.nanos() <= t,
                Bound::Excluded(start) => start.nanos() < t,
                Bound::Unbounded => true,
            }
            &&& match range.end {
                Bound::Included(end) => t <= end.nanos(),
                Bound::Excluded(end) => t < end.nanos(),
                Bound::Unbounded => true,
            }
        }),
        ({
            ||| found_links(history[at].content@).contains(url)
            ||| exists|i: int|
                0 <= i < history[at].attachments@.len() && (
                #[trigger] history[at].attachments@[i]).url@ == url
            ||| exists|i: int|
                0 <= i < history[at].embeds@.len() && (#[trigger] history[at].embeds@[i]).url is Some
                    && history[at].embeds@[i].url->0@ == url
        }),
    ensures
        ({
            let result = outcome(
                initial(channel, range, None),
                history,
                first_before(range),
                batch_size(None, 0),
                clock,
                0,
                turns,
            );
            &&& result is Some
            &&& kept_links(links_of_all(result->0)).contains(url) <==> !is_excluded(url)
        }),
{
    law_fetch_finds_message(channel, range, history, clock, turns, at);
    let result = outcome(
        initial(channel, range, None),
        history,
        first_before(range),
        batch_size(None, 0),
        clock,
        0,
        turns,
    );
    let messages = result->0;
    let message = history[at];
    let links = links_of(found_links(message.content@), message);
    assert(links.contains(url)) by {
        lemma_link_of_message(message, url);
    }
    let k = choose|k: int| 0 <= k < messages.len() && messages[k] == message;
    let front = messages.take(k);
    let back = messages.skip(k + 1);
    assert(messages =~= front + (seq![message] + back));
    law_links_of_messages(front, seq![message] + back, message);
    law_links_of_messages(seq![message], back, message);
    let j = choose|j: int| 0 <= j < links.len() && links[j] == url;
    let all = links_of_all(messages);
    assert(all[links_of_all(front).len() + j] == url);
    law_kept_links(all);
    if kept_links(all).contains(url) {
        let n = choose|n: int| 0 <= n < kept_links(all).len() && kept_links(all)[n] == url;
        assert(!is_excluded(kept_links(all)[n]));
    }
}

/// The links in a message's content, its attachments and its embeds with an address are among
/// its links.
proof fn lemma_link_of_message(message: Message, url: Seq<char>)
    requires
        ({
            ||| found_links(message.content@).contains(url)
            ||| exists|i: int|
                0 <= i < message.attachments@.len() && (#[trigger] message.attachments@[i]).url@
                    == url
            ||| exists|i: int|
                0 <= i < message.embeds@.len() && (#[trigger] message.embeds@[i]).url is Some
                    && message.embeds@[i].url->0@ == url
        }),
    ensures
        links_of(found_links(message.content@), message).contains(url),
{
    let in_content = found_links(message.content@);
    let links = links_of(in_content, message);
    law_links_of_message(in_content, message);
    let second = in_content.len() + message.attachments@.len();
    if in_content.contains(url) {
        let i = choose|i: int| 0 <= i < in_content.len() && in_content[i] == url;
        assert(links.take(in_content.len() as int)[i] == links[i]);
        assert(links[i] == url);
    } else if exists|i: int|
        0 <= i < message.attachments@.len() && (#[trigger] message.attachments@[i]).url@ == url {
        let i = choose|i: int|
            0 <= i < message.attachments@.len() && (#[trigger] message.attachments@[i]).url@ == url;
        assert(links[in_content.len() + i] == url);
    } else {
        let i = choose|i: int|
            0 <= i < message.embeds@.len() && (#[trigger] message.embeds@[i]).url is Some
                    && message.embeds@[i].url->0@ == url;
        let has_url = |e: Embed| e.url is Some;
        let shown = message.embeds@.filter(has_url);
        message.embeds@.lemma_filter_contains(has_url, i);
        let j = choose|j: int| 0 <= j < shown.len() && shown[j] == message.embeds@[i];
        assert(links[second + j] == url);
    }
}

/// A scan looks at the channel and the range that it was started with, in the guild that the
/// channel belongs to, and asks for that guild by its identifier. A channel without a guild is
/// not scanned.
pub proof fn law_scan_stays_with_channel<H>(
    client: DiscordClient<H>,
    channel_id: Snowflake,
    range: DateRange,
    start: (AwaitChannel, String),
    channel: Channel,
    answer: Result<(AwaitGuild, String), Error>,
)
    requires
        call_ensures(fetch_channel_links::<H>, (&client, channel_id, range), start),
        call_ensures(AwaitChannel::on_channel::<H>, (start.0, &client, Ok(channel)), answer),
    ensures
        u64_value(start.1@.skip(client.base().len() + 10int)) == Some(channel_id.0 as int),
        match channel.guild_id {
            Some(guild_id) => {
                &&& answer matches Ok((next, url))
                &&& next.channel_id == channel_id
                &&& next.range == range
                &&& next.channel_name == channel.name
                &&& next.guild_id == guild_id
                &&& u64_value(url@.skip(client.base().len() + 8int)) == Some(guild_id.0 as int)
            },
            None => {
                &&& answer matches Err(Error::MissingGuildId(text))
                &&& u64_value(text@) == Some(channel_id.0 as int)
            },
        },
{
    reveal_strlit("/channels/");
    reveal_strlit("/guilds/");
    let base = client.base().len() as int;
    law_identifier_ends_path(channel_id);
    lemma_decimal_read_back(channel_id.0);
    assert(start.1@.skip(base + 10) =~= channel_path(channel_id).skip(10));
    if let Some(guild_id) = channel.guild_id {
        law_identifier_ends_path(guild_id);
        if let Ok((next, url)) = answer {
            assert(url@.skip(base + 8) =~= guild_path(guild_id).skip(8));
        }
    }
}

/// Once a scan knows its guild, it fetches all messages of its channel in its range.
pub proof fn law_scan_fetches_everything<H>(
    scan: AwaitGuild,
    client: DiscordClient<H>,
    guild: Guild,
    answer: Result<(AwaitMessages, String), Error>,
)
    requires
        call_ensures(AwaitGuild::on_guild::<H>, (scan, &client, Ok(guild)), answer),
    ensures
        match answer {
            Ok((next, url)) => {
                &&& next.fetch@.channel == scan.channel_id
                &&& next.fetch@.range == scan.range
                &&& next.fetch@.limit is None
                &&& next.fetch@.messages.len() == 0
                &&& next.channel_name == scan.channel_name
                &&& next.guild_id == scan.guild_id
                &&& next.server_name == guild.name
                &&& url@ == client.base() + messages_path(
                    scan.channel_id,
                    first_before(scan.range),
                    100,
                )
            },
            Err(e) => e is TimestampTooEarly || e is TimestampTooLarge,
        },
{
}

/// A scan tells of the message that comes first, and of none where none came.
pub proof fn law_first_message(message: Message, rest: Seq<Message>, first: Option<FirstMessage>)
    ensures
        is_first_of(first, Seq::empty()) <==> first is None,
        is_first_of(first, seq![message] + rest) <==> {
            &&& first matches Some(told)
            &&& told.id == message.id
            &&& told.content@ == message.content@
        },
{
}

/// A complete scan reports the names that it knows and the links of its messages: those of
/// interest themselves, and of the others their number.
pub proof fn law_scan_reports<H>(
    scan: AwaitMessages,
    client: DiscordClient<H>,
    batch: Vec<Message>,
    now: u128,
    excluder: Excluder,
    report: LinkReport,
)
    requires
        call_ensures(
            AwaitMessages::on_messages::<H>,
            (scan, &client, Ok(batch), now, &excluder),
            ScanStep::Done(report),
        ),
    ensures
        ({
            let messages = absorb(scan.fetch@, batch@, now).messages;
            let links = links_of_all(messages);
            &&& report.channel_name == scan.channel_name
            &&& report.server_name == scan.server_name
            &&& report.kept@.len() + report.excluded == links.len()
            &&& forall|i: int|
                0 <= i < report.kept@.len() ==> !is_excluded((#[trigger] report.kept@[i])@)
                    && links.contains(report.kept@[i]@)
            &&& forall|url: Seq<char>| #[trigger]
                links.contains(url) && !is_excluded(url) ==> texts(report.kept@).contains(url)
            &&& messages.len() == 0 <==> report.first is None
            &&& messages.len() > 0 ==> report.first->0.id == messages[0].id
                && report.first->0.content@ == messages[0].content@
        }),
{
    let links = links_of_all(absorb(scan.fetch@, batch@, now).messages);
    law_kept_links(links);
    assert forall|i: int| 0 <= i < report.kept@.len() implies !is_excluded(
        (#[trigger] report.kept@[i])@,
    ) && links.contains(report.kept@[i]@) by {
        assert(texts(report.kept@)[i] == kept_links(links)[i]);
    }
    assert forall|url: Seq<char>| #[trigger]
        links.contains(url) && !is_excluded(url) implies texts(report.kept@).contains(url) by {
        assert(kept_links(links).contains(url));
    }
}

} // verus!
