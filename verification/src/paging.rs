//! Fetching a range of messages batch by batch.
use crate::client::{messages_path, DiscordClient};
use crate::datetime::{Bound, DateRange, UtcDateTime, NANOS_PER_SECOND};
use crate::error::Error;
use crate::model::Message;
use crate::snowflake::Snowflake;
use crate::utils::{compose, is_composable, made_at, unix_ms_to_snowflake, DISCORD_EPOCH};
use vstd::prelude::*;

verus! {

/// The largest number of messages that one request asks for.
pub const MAX_BATCH: usize = 100;

/// Five minutes, in nanoseconds: after that long no more requests are made.
pub const FETCH_TIMEOUT: u128 = 300_000_000_000;

/// Whether a message's identifier was made in the range.
pub open spec fn in_window(range: DateRange, message: Message) -> bool {
    range.has(made_at(message.id))
}

/// The messages up to the first that is not in the range.
pub open spec fn leading(range: DateRange, messages: Seq<Message>) -> Seq<Message>
    decreases messages.len(),
{
    if messages.len() == 0 || !in_window(range, messages[0]) {
        Seq::empty()
    } else {
        seq![messages[0]] + leading(range, messages.drop_first())
    }
}

/// How many messages to ask for when some have been collected.
pub open spec fn batch_size(limit: Option<usize>, collected: int) -> int {
    match limit {
        None => MAX_BATCH as int,
        Some(limit) => if limit <= collected {
            0
        } else if limit - collected < MAX_BATCH {
            limit - collected
        } else {
            MAX_BATCH as int
        },
    }
}

/// The second, counted from the Unix epoch, in which a range ends, if it has an end.
pub open spec fn end_second(range: DateRange) -> Option<int> {
    match range.end {
        Bound::Included(t) => Some(t.seconds()),
        Bound::Excluded(t) => Some(t.seconds()),
        Bound::Unbounded => None,
    }
}

/// The first second, counted from the Unix epoch, of which no instant to the second is in the
/// range any more, if the range has an end.
pub open spec fn past_second(range: DateRange) -> Option<int> {
    match range.end {
        Bound::Included(t) => Some(t.seconds() + 1),
        Bound::Excluded(t) => if t.nanos() % NANOS_PER_SECOND as int == 0 {
            Some(t.seconds())
        } else {
            Some(t.seconds() + 1)
        },
        Bound::Unbounded => None,
    }
}

/// The smallest identifier that is past the range, if there is one. Only older messages are
/// fetched.
pub open spec fn first_before(range: DateRange) -> Option<Snowflake> {
    match past_second(range) {
        Some(second) => if is_composable(second * 1000, 0, 0) {
            Some(Snowflake(compose(second * 1000, 0, 0) as u64))
        } else {
            None
        },
        None => None,
    }
}

/// How far a fetch has come.
pub struct FetchState {
    pub channel: Snowflake,
    pub range: DateRange,
    pub limit: Option<usize>,
    /// What has been collected, newest first.
    pub messages: Seq<Message>,
    /// When the first batch had come, once more than that batch is needed.
    pub started: Option<u128>,
}

/// What a fetch does next.
pub enum Decision {
    /// Ask for so many messages older than an identifier, or for the newest.
    Ask { before: Option<Snowflake>, count: int },
    /// Give out what has been collected. Where time ran out, there may be more.
    Finish { timed_out: bool },
}

/// The state before the first batch.
pub open spec fn initial(channel: Snowflake, range: DateRange, limit: Option<usize>) -> FetchState {
    FetchState { channel, range, limit, messages: Seq::empty(), started: None }
}

/// What to do next when the collection is not yet known to be complete.
pub open spec fn proceed(state: FetchState, now: u128) -> Decision
    recommends
        state.started is Some,
        state.messages.len() > 0,
{
    if state.limit matches Some(limit) && state.messages.len() >= limit {
        Decision::Finish { timed_out: false }
    } else if now >= state.started->0 + FETCH_TIMEOUT {
        Decision::Finish { timed_out: true }
    } else if !in_window(state.range, state.messages.last()) {
        Decision::Finish { timed_out: false }
    } else {
        Decision::Ask {
            before: Some(state.messages.last().id),
            count: batch_size(state.limit, state.messages.len() as int),
        }
    }
}

/// The state after a batch has come.
pub open spec fn absorb(state: FetchState, batch: Seq<Message>, now: u128) -> FetchState {
    let fresh = leading(state.range, batch);
    FetchState {
        messages: state.messages + fresh,
        started: if state.started is None && fresh.len() >= MAX_BATCH {
            Some(now)
        } else {
            state.started
        },
        ..state
    }
}

/// What to do after a batch has come. Where the first batch is short of the largest, or a
/// later one holds nothing of the range, there is no more to fetch.
pub open spec fn decide(state: FetchState, batch: Seq<Message>, now: u128) -> Decision {
    let fresh = leading(state.range, batch);
    if state.started is None && fresh.len() < MAX_BATCH {
        Decision::Finish { timed_out: false }
    } else if state.started is Some && fresh.len() == 0 {
        Decision::Finish { timed_out: false }
    } else {
        proceed(absorb(state, batch, now), now)
    }
}

/// Whether a fetch between two batches is in order: what it has collected is in the range, and
/// it has collected something once the first batch has come.
pub open spec fn valid(state: FetchState) -> bool {
    &&& forall|i: int|
        0 <= i < state.messages.len() ==> in_window(state.range, #[trigger] state.messages[i])
    &&& state.started is Some <==> state.messages.len() > 0
}

/// A fetch of a channel's messages in a range of time, newest first.
#[derive(Debug)]
pub struct RangeFetch {
    channel_id: Snowflake,
    range: DateRange,
    limit: Option<usize>,
    messages: Vec<Message>,
    started: Option<u128>,
}

impl View for RangeFetch {
    type V = FetchState;

    closed spec fn view(&self) -> FetchState {
        FetchState {
            channel: self.channel_id,
            range: self.range,
            limit: self.limit,
            messages: self.messages@,
            started: self.started,
        }
    }
}

impl RangeFetch {
    #[verifier::type_invariant]
    pub open spec fn wf(self) -> bool {
        valid(self@)
    }
}

/// What to do next.
#[derive(Debug)]
pub enum FetchStep {
    /// Get the messages at an address, and hand them to the fetch.
    Request(RangeFetch, String),
    /// The messages, newest first. They are complete unless time ran out.
    Done { messages: Vec<Message>, timed_out: bool },
    /// The fetch has failed.
    Fail(Error),
}

/// The messages up to the first that is not in the range.
///
/// Discord returns messages newest first, so all that follow the first message outside the
/// range are older and also outside it.
fn keep_leading(range: &DateRange, messages: Vec<Message>) -> (kept: Vec<Message>)
    ensures
        kept@ == leading(*range, messages@),
{
    let mut kept = messages;
    let mut count: usize = 0;
    assert(messages@.skip(0) =~= messages@);
    while count < kept.len()
        invariant
            kept@ == messages@,
            count <= kept@.len(),
            leading(*range, messages@) =~= messages@.take(count as int) + leading(
                *range,
                messages@.skip(count as int),
            ),
        ensures
            leading(*range, messages@.skip(count as int)) =~= Seq::<Message>::empty(),
        decreases kept@.len() - count,
    {
        let within = match kept[count].timestamp() {
            Ok(t) => range.contains(&t),
            Err(_) => false,
        };
        if !within {
            break;
        }
        assert(messages@.skip(count as int).drop_first() =~= messages@.skip(count + 1));
        count = count + 1;
    }
    kept.truncate(count);
    kept
}

/// How many messages to ask for when some have been collected.
fn next_batch_size(limit: Option<usize>, collected: usize) -> (count: u8)
    ensures
        count == batch_size(limit, collected as int),
{
    match limit {
        None => 100,
        Some(limit) => {
            let wanted: usize = limit.saturating_sub(collected);
            if wanted < MAX_BATCH {
                wanted as u8
            } else {
                100
            }
        },
    }
}

/// The smallest identifier of the first second that is past an end, if there is one. The
/// second of the end itself must have identifiers.
fn first_not_made_by(end: &UtcDateTime, included: bool) -> (res: Result<Option<Snowflake>, Error>)
    ensures
        if end.seconds() * 1000 < DISCORD_EPOCH {
            res matches Err(Error::TimestampTooEarly)
        } else if end.seconds() * 1000 - DISCORD_EPOCH >= 0x400_0000_0000 {
            res matches Err(Error::TimestampTooLarge)
        } else {
            let bound = if included {
                Bound::Included(*end)
            } else {
                Bound::Excluded(*end)
            };
            res matches Ok(id) && id == first_before(
                DateRange { start: Bound::Unbounded, end: bound },
            )
        },
{
    proof {
        use_type_invariant(end);
    }
    let second: i64 = end.unix_timestamp();
    let first = unix_ms_to_snowflake(second * 1000, 0, 0)?;
    if !included && end.unix_timestamp_nanos() == second as i128 * NANOS_PER_SECOND {
        return Ok(Some(first));
    }
    match unix_ms_to_snowflake((second + 1) * 1000, 0, 0) {
        Ok(id) => Ok(Some(id)),
        Err(_) => Ok(None),
    }
}

impl<H> DiscordClient<H> {
    /// Starts to fetch all messages in `date_range`, up to `limit` in total: the fetch, and the
    /// address of its first batch.
    pub fn get_messages_range(
        &self,
        channel_id: Snowflake,
        date_range: DateRange,
        limit: Option<usize>,
    ) -> (res: Result<(RangeFetch, String), Error>)
        ensures
            if end_second(date_range) matches Some(second) && second * 1000 < DISCORD_EPOCH {
                res matches Err(Error::TimestampTooEarly)
            } else if end_second(date_range) matches Some(second) && second * 1000 - DISCORD_EPOCH
                >= 0x400_0000_0000 {
                res matches Err(Error::TimestampTooLarge)
            } else if limit == Some(0usize) {
                res matches Err(Error::InvalidLimit)
            } else {
                &&& res matches Ok((fetch, url))
                &&& fetch@ == initial(channel_id, date_range, limit)
                &&& url@ == self.base() + messages_path(
                    channel_id,
                    first_before(date_range),
                    batch_size(limit, 0) as u8,
                )
            },
    {
        let count = next_batch_size(limit, 0);
        let before: Option<Snowflake> = match &date_range.end {
            Bound::Included(t) => first_not_made_by(t, true)?,
            Bound::Excluded(t) => first_not_made_by(t, false)?,
            Bound::Unbounded => None,
        };
        let url = match before {
            Some(before_id) => self.get_messages_before(channel_id, before_id, count)?,
            None => self.get_messages(channel_id, count)?,
        };
        let fetch = RangeFetch {
            channel_id,
            range: date_range,
            limit,
            messages: Vec::new(),
            started: None,
        };
        Ok((fetch, url))
    }
}

impl RangeFetch {
    /// Takes in the reply to the latest request. `now` is a reading, in nanoseconds, of a
    /// clock that never goes back.
    pub fn step<H>(self, client: &DiscordClient<H>, reply: Result<Vec<Message>, Error>, now: u128)
        -> (step: FetchStep)
        ensures
            match reply {
                Err(e) => step == FetchStep::Fail(e),
                Ok(batch) => match decide(self@, batch@, now) {
                    Decision::Finish { timed_out } => {
                        &&& step matches FetchStep::Done { messages, timed_out: cut_short }
                        &&& messages@ == absorb(self@, batch@, now).messages
                        &&& cut_short == timed_out
                    },
                    Decision::Ask { before, count } => {
                        &&& step matches FetchStep::Request(fetch, url)
                        &&& fetch@ == absorb(self@, batch@, now)
                        &&& url@ == client.base() + messages_path(
                            self@.channel,
                            before,
                            count as u8,
                        )
                    },
                },
            },
    {
        let batch = match reply {
            Ok(batch) => batch,
            Err(e) => return FetchStep::Fail(e),
        };
        proof {
            use_type_invariant(&self);
            lemma_leading_in_window(self.range, batch@);
        }
        let ghost state = self@;
        let RangeFetch { channel_id, range, limit, mut messages, started } = self;
        let mut fresh = keep_leading(&range, batch);
        let count = fresh.len();
        messages.append(&mut fresh);
        let started: u128 = match started {
            None => {
                if count < MAX_BATCH {
                    return FetchStep::Done { messages, timed_out: false };
                }
                now
            },
            Some(started) => {
                if count == 0 {
                    return FetchStep::Done { messages, timed_out: false };
                }
                started
            },
        };
        assert(messages@ == absorb(state, batch@, now).messages);
        if let Some(limit) = limit {
            if messages.len() >= limit {
                return FetchStep::Done { messages, timed_out: false };
            }
        }
        if now >= started && now - started >= FETCH_TIMEOUT {
            return FetchStep::Done { messages, timed_out: true };
        }
        let last = &messages[messages.len() - 1];
        let last_id = last.id;
        match last.timestamp() {
            Ok(t) => {
                if !range.contains(&t) {
                    return FetchStep::Done { messages, timed_out: false };
                }
            },
            Err(e) => return FetchStep::Fail(e),
        }
        let size = next_batch_size(limit, messages.len());
        match client.get_messages_before(channel_id, last_id, size) {
            Ok(url) => {
                let fetch = RangeFetch {
                    channel_id,
                    range,
                    limit,
                    messages,
                    started: Some(started),
                };
                FetchStep::Request(fetch, url)
            },
            Err(e) => FetchStep::Fail(e),
        }
    }
}

/// The messages up to the first that is not in the range are all in the range.
pub proof fn lemma_leading_in_window(range: DateRange, messages: Seq<Message>)
    ensures
        forall|i: int|
            0 <= i < leading(range, messages).len() ==> in_window(
                range,
                #[trigger] leading(range, messages)[i],
            ),
    decreases messages.len(),
{
    if messages.len() > 0 && in_window(range, messages[0]) {
        lemma_leading_in_window(range, messages.drop_first());
        let rest = leading(range, messages.drop_first());
        assert forall|i: int| 0 <= i < leading(range, messages).len() implies in_window(
            range,
            #[trigger] leading(range, messages)[i],
        ) by {
            if i > 0 {
                assert(leading(range, messages)[i] == rest[i - 1]);
            }
        }
    }
}

} // verus!
