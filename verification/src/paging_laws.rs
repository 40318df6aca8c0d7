//! What a fetch promises: what each step keeps, and what comes out of a whole fetch.
use crate::client::{messages_path, DiscordClient};
use crate::datetime::{Bound, DateRange};
use crate::error::Error;
use crate::model::Message;
use crate::paging::{
    absorb, batch_size, decide, end_second, first_before, in_window, initial, leading,
    lemma_leading_in_window, past_second, valid, Decision, FetchState, FetchStep,
    RangeFetch, FETCH_TIMEOUT, MAX_BATCH,
};
use crate::snowflake::Snowflake;
use crate::utils::{compose, is_composable, made_at, unix_ms};
use vstd::prelude::*;

verus! {

/// Each batch only adds to the collection, and whatever is collected is in the range. A fetch
/// that goes on has collected more than before, and stays in order.
pub proof fn law_step_keeps_window(state: FetchState, batch: Seq<Message>, now: u128)
    requires
        valid(state),
    ensures
        state.messages.is_prefix_of(absorb(state, batch, now).messages),
        forall|i: int|
            0 <= i < absorb(state, batch, now).messages.len() ==> in_window(
                state.range,
                #[trigger] absorb(state, batch, now).messages[i],
            ),
        decide(state, batch, now) is Ask ==> {
            &&& valid(absorb(state, batch, now))
            &&& absorb(state, batch, now).messages.len() > state.messages.len()
        },
{
    lemma_leading_in_window(state.range, batch);
}

/// A fetch that goes on asks for between one and a hundred messages, never for more than are
/// missing, all of them older than the oldest that it has, and only in the five minutes after
/// the first batch.
pub proof fn law_requests_are_bounded(state: FetchState, batch: Seq<Message>, now: u128)
    requires
        valid(state),
    ensures
        decide(state, batch, now) matches Decision::Ask { before, count } ==> {
            &&& before == Some(absorb(state, batch, now).messages.last().id)
            &&& 1 <= count <= MAX_BATCH
            &&& state.limit matches Some(limit) ==> absorb(state, batch, now).messages.len() + count
                <= limit
            &&& state.started matches Some(started) ==> now < started + FETCH_TIMEOUT
        },
{
}

/// If every reply holds no more messages than were asked for, no more than the limit are
/// collected.
pub proof fn law_limit_is_kept(state: FetchState, batch: Seq<Message>, now: u128)
    requires
        state.limit matches Some(limit) && state.messages.len() <= limit,
        batch.len() <= batch_size(state.limit, state.messages.len() as int),
    ensures
        absorb(state, batch, now).messages.len() <= state.limit->0,
{
    lemma_leading_is_prefix(state.range, batch);
}

/// Messages newest first, no two with one identifier.
pub open spec fn newest_first(history: Seq<Message>) -> bool {
    forall|i: int, j: int|
        0 <= i < j < history.len() ==> (#[trigger] history[i]).id.0 > (#[trigger] history[j]).id.0
}

pub open spec fn is_older(message: Message, before: Option<Snowflake>) -> bool {
    match before {
        Some(id) => message.id.0 < id.0,
        None => true,
    }
}

/// Those messages that are older than an identifier.
pub open spec fn older(history: Seq<Message>, before: Option<Snowflake>) -> Seq<Message> {
    history.filter(|m: Message| is_older(m, before))
}

/// The first so many messages, or all of them if there are fewer.
pub open spec fn at_most(messages: Seq<Message>, count: int) -> Seq<Message> {
    if count < messages.len() {
        messages.take(count)
    } else {
        messages
    }
}

/// What Discord answers from a channel's history: the newest of the messages that are older
/// than an identifier.
pub open spec fn answer(history: Seq<Message>, before: Option<Snowflake>, count: int) -> Seq<
    Message,
> {
    at_most(older(history, before), count)
}

/// What comes out of a fetch from the given state on, when the latest request is answered from
/// the history and the clock shows `clock(turn)` at each reply. `None`, if `turns` replies do
/// not complete it.
pub open spec fn outcome(
    state: FetchState,
    history: Seq<Message>,
    before: Option<Snowflake>,
    count: int,
    clock: spec_fn(nat) -> u128,
    turn: nat,
    turns: nat,
) -> Option<Seq<Message>>
    decreases turns,
{
    if turns == 0 {
        None
    } else {
        let batch = answer(history, before, count);
        let now = clock(turn);
        let next = absorb(state, batch, now);
        match decide(state, batch, now) {
            Decision::Finish { .. } => Some(next.messages),
            Decision::Ask { before, count } => outcome(
                next,
                history,
                before,
                count,
                clock,
                turn + 1,
                (turns - 1) as nat,
            ),
        }
    }
}

/// The messages in the range, newest first.
pub open spec fn all_in_window(history: Seq<Message>, range: DateRange) -> Seq<Message> {
    history.filter(|m: Message| in_window(range, m))
}

/// `messages`, cut off at the limit.
pub open spec fn limited(messages: Seq<Message>, limit: Option<usize>) -> Seq<Message> {
    match limit {
        Some(limit) => at_most(messages, limit as int),
        None => messages,
    }
}

proof fn lemma_leading_is_prefix(range: DateRange, messages: Seq<Message>)
    ensures
        leading(range, messages).len() <= messages.len(),
        leading(range, messages) == messages.take(leading(range, messages).len() as int),
        leading(range, messages).len() < messages.len() ==> !in_window(
            range,
            messages[leading(range, messages).len() as int],
        ),
    decreases messages.len(),
{
    if messages.len() > 0 && in_window(range, messages[0]) {
        let rest = messages.drop_first();
        lemma_leading_is_prefix(range, rest);
        assert(leading(range, messages) =~= messages.take(leading(range, messages).len() as int));
    } else {
        assert(leading(range, messages) =~= messages.take(0));
    }
}

/// The longest prefix in the range is the only one that is in the range and is followed by
/// nothing or by a message outside it.
proof fn lemma_leading_unique(range: DateRange, messages: Seq<Message>, count: int)
    requires
        0 <= count <= messages.len(),
        forall|i: int| 0 <= i < count ==> in_window(range, #[trigger] messages[i]),
        count < messages.len() ==> !in_window(range, messages[count]),
    ensures
        leading(range, messages) == messages.take(count),
{
    lemma_leading_is_prefix(range, messages);
    lemma_leading_in_window(range, messages);
    let found = leading(range, messages);
    if found.len() < count {
        assert(in_window(range, messages[found.len() as int]));
    }
    if found.len() > count {
        assert(found[count] == messages[count]);
    }
}

/// Of some of the messages from a position within the longest prefix on, the longest prefix is
/// what the whole has there.
proof fn lemma_leading_part(range: DateRange, messages: Seq<Message>, from: int, count: int)
    requires
        0 <= from <= leading(range, messages).len(),
        0 <= count,
    ensures
        leading(range, at_most(messages.skip(from), count)) == at_most(
            leading(range, messages).skip(from),
            count,
        ),
{
    lemma_leading_is_prefix(range, messages);
    lemma_leading_in_window(range, messages);
    let whole = leading(range, messages);
    let part = at_most(messages.skip(from), count);
    let expected = at_most(whole.skip(from), count);
    assert forall|i: int| 0 <= i < expected.len() implies in_window(range, #[trigger] part[i]) by {
        assert(part[i] == whole[from + i]);
    }
    lemma_leading_unique(range, part, expected.len() as int);
    assert(part.take(expected.len() as int) =~= expected);
}

/// In a history newest first, the messages older than an identifier are all those from some
/// position on.
proof fn lemma_older_is_suffix(history: Seq<Message>, before: Option<Snowflake>)
    requires
        newest_first(history),
    ensures
        older(history, before).len() <= history.len(),
        older(history, before) == history.skip(history.len() - older(history, before).len()),
        forall|i: int|
            0 <= i < history.len() ==> (is_older(#[trigger] history[i], before) <==> i
                >= history.len() - older(history, before).len()),
    decreases history.len(),
{
    reveal(Seq::filter);
    if history.len() > 0 {
        let front = history.drop_last();
        lemma_older_is_suffix(front, before);
        let found = older(history, before);
        if is_older(history.last(), before) {
            assert(found == older(front, before).push(history.last()));
            assert(found =~= history.skip(history.len() - found.len()));
        } else {
            if older(front, before).len() > 0 {
                assert(is_older(front[front.len() - 1], before));
                assert(history[front.len() - 1].id.0 > history[history.len() - 1].id.0);
            }
            assert(found =~= history.skip(history.len() - found.len()));
        }
        assert forall|i: int| 0 <= i < history.len() implies (is_older(
            #[trigger] history[i],
            before,
        ) <==> i >= history.len() - found.len()) by {
            if i < front.len() {
                assert(history[i] == front[i]);
            }
        }
    } else {
        assert(older(history, before) =~= history.skip(0));
    }
}

/// What is older than a message of such a suffix is what follows it there.
proof fn lemma_older_than_member(history: Seq<Message>, before: Option<Snowflake>, at: int)
    requires
        newest_first(history),
        0 <= at < older(history, before).len(),
    ensures
        older(history, Some(older(history, before)[at].id)) == older(history, before).skip(at + 1),
{
    let pool = older(history, before);
    lemma_older_is_suffix(history, before);
    let start = history.len() - pool.len();
    let id = history[start + at].id;
    let rest = older(history, Some(id));
    lemma_older_is_suffix(history, Some(id));
    assert(!is_older(history[start + at], Some(id)));
    if start + at + 1 < history.len() {
        assert(is_older(history[start + at + 1], Some(id)));
    }
    assert(history.len() - rest.len() == start + at + 1);
    assert(rest =~= pool.skip(at + 1));
}

/// Whether the clock stays within five minutes of a time.
pub open spec fn in_time(clock: spec_fn(nat) -> u128, started: u128) -> bool {
    forall|t: nat| #[trigger] clock(t) < started + FETCH_TIMEOUT
}

/// A fetch under way against a history comes to a part of what it is after, and in time to all
/// of it.
proof fn lemma_outcome_from(
    state: FetchState,
    history: Seq<Message>,
    first: Option<Snowflake>,
    clock: spec_fn(nat) -> u128,
    turn: nat,
    turns: nat,
)
    requires
        newest_first(history),
        valid(state),
        state.started is Some,
        state.messages.len() <= leading(state.range, older(history, first)).len(),
        state.messages == leading(state.range, older(history, first)).take(
            state.messages.len() as int,
        ),
        state.limit matches Some(limit) ==> state.messages.len() < limit,
    ensures
        ({
            let target = limited(leading(state.range, older(history, first)), state.limit);
            let result = outcome(
                state,
                history,
                Some(state.messages.last().id),
                batch_size(state.limit, state.messages.len() as int),
                clock,
                turn,
                turns,
            );
            &&& result matches Some(messages) ==> messages.is_prefix_of(target)
            &&& in_time(clock, state.started->0) && turns > leading(
                state.range,
                older(history, first),
            ).len() - state.messages.len() ==> result == Some(target)
        }),
    decreases turns,
{
    let pool = older(history, first);
    let target = leading(state.range, pool);
    let have = state.messages.len() as int;
    let count = batch_size(state.limit, have);
    lemma_leading_is_prefix(state.range, pool);
    assert(state.messages.last() == pool[have - 1]);
    lemma_older_than_member(history, first, have - 1);
    let batch = answer(history, Some(state.messages.last().id), count);
    assert(batch == at_most(pool.skip(have), count));
    lemma_leading_part(state.range, pool, have, count);
    let fresh = leading(state.range, batch);
    assert(fresh == at_most(target.skip(have), count));
    if turns > 0 {
        let now = clock(turn);
        let next = absorb(state, batch, now);
        law_step_keeps_window(state, batch, now);
        assert(next.messages =~= target.take(have + fresh.len()));
        assert(next.messages.is_prefix_of(limited(target, state.limit)));
        if fresh.len() == 0 {
            assert(next.messages =~= limited(target, state.limit));
        } else if state.limit matches Some(limit) && next.messages.len() >= limit {
            assert(next.messages =~= limited(target, state.limit));
        } else {
            assert(next.messages[next.messages.len() - 1] == next.messages.last());
            assert(in_window(state.range, next.messages.last()));
            lemma_outcome_from(next, history, first, clock, turn + 1, (turns - 1) as nat);
        }
    }
}

/// A fetch from its start against a history comes to a part of the longest prefix of the older
/// messages that is in the range, and in time to all of it.
proof fn lemma_outcome(
    state: FetchState,
    history: Seq<Message>,
    first: Option<Snowflake>,
    clock: spec_fn(nat) -> u128,
    turns: nat,
)
    requires
        newest_first(history),
        valid(state),
        state.started is None,
        state.limit != Some(0usize),
    ensures
        ({
            let target = limited(leading(state.range, older(history, first)), state.limit);
            let result = outcome(
                state,
                history,
                first,
                batch_size(state.limit, 0),
                clock,
                0,
                turns,
            );
            &&& result matches Some(messages) ==> messages.is_prefix_of(target)
            &&& in_time(clock, clock(0)) && turns > leading(
                state.range,
                older(history, first),
            ).len() ==> result == Some(target)
        }),
{
    let pool = older(history, first);
    let target = leading(state.range, pool);
    let count = batch_size(state.limit, 0);
    let batch = answer(history, first, count);
    assert(pool.skip(0) =~= pool);
    assert(target.skip(0) =~= target);
    lemma_leading_part(state.range, pool, 0, count);
    let fresh = leading(state.range, batch);
    let now = clock(0);
    let next = absorb(state, batch, now);
    law_step_keeps_window(state, batch, now);
    assert(next.messages =~= fresh);
    assert(fresh =~= target.take(fresh.len() as int));
    if turns > 0 {
        if fresh.len() < MAX_BATCH {
            assert(fresh =~= limited(target, state.limit));
        } else if state.limit matches Some(limit) && next.messages.len() >= limit {
            assert(fresh =~= limited(target, state.limit));
        } else {
            assert(next.messages[next.messages.len() - 1] == next.messages.last());
            assert(in_window(state.range, next.messages.last()));
            lemma_outcome_from(next, history, first, clock, 1, (turns - 1) as nat);
        }
    }
}

/// Stopping at the first message outside the range loses nothing: in a history newest first,
/// of the messages that are not past the range, those in the range are the ones in front.
pub proof fn law_range_is_in_front(history: Seq<Message>, range: DateRange)
    requires
        newest_first(history),
        end_second(range) matches Some(second) ==> is_composable(second * 1000, 0, 0),
    ensures
        leading(range, older(history, first_before(range))) == all_in_window(history, range),
    decreases history.len(),
{
    let first = first_before(range);
    reveal(Seq::filter);
    if history.len() == 0 {
        assert(older(history, first) =~= history);
        assert(all_in_window(history, range) =~= history);
    } else {
        let front = history.drop_last();
        let last = history.last();
        assert forall|i: int, j: int| 0 <= i < j < front.len() implies (#[trigger] front[i]).id.0 > (
        #[trigger] front[j]).id.0 by {
            assert(front[i] == history[i] && front[j] == history[j]);
        }
        law_range_is_in_front(front, range);
        lemma_older_before_end(last, range);
        let before = older(front, first);
        let now = older(history, first);
        lemma_leading_is_prefix(range, before);
        lemma_leading_in_window(range, before);
        let count = leading(range, before).len() as int;
        if is_older(last, first) {
            assert(now =~= before.push(last));
            if count < before.len() {
                // A message before the last is already outside the range, and so is the last.
                lemma_older_is_suffix(front, first);
                let out = before[count];
                assert(now[count] == out);
                let k = front.len() - before.len() + count;
                assert(out == history[k] && last == history[history.len() - 1]);
                lemma_older_before_end(out, range);
                assert(is_older(front[k], first));
                assert(made_at(last.id) <= made_at(out.id));
                assert(!in_window(range, last));
                assert forall|i: int| 0 <= i < count implies in_window(range, #[trigger] now[i]) by {
                    assert(now[i] == leading(range, before)[i]);
                }
                lemma_leading_unique(range, now, count);
                assert(now.take(count) =~= before.take(count));
            } else {
                assert forall|i: int| 0 <= i < count implies in_window(range, #[trigger] now[i]) by {
                    assert(now[i] == leading(range, before)[i]);
                }
                if in_window(range, last) {
                    lemma_leading_unique(range, now, now.len() as int);
                    assert(now.take(now.len() as int) =~= before.take(count).push(last));
                } else {
                    lemma_leading_unique(range, now, count);
                    assert(now.take(count) =~= before.take(count));
                }
            }
        } else {
            assert(now =~= before);
        }
    }
}

/// A message is older than the first identifier that is past the range if and only if it is not
/// past the range.
proof fn lemma_older_before_end(message: Message, range: DateRange)
    requires
        end_second(range) matches Some(second) ==> is_composable(second * 1000, 0, 0),
    ensures
        is_older(message, first_before(range)) <==> range.before_end(made_at(message.id)),
{
    if let Some(second) = past_second(range) {
        let bound = compose(second * 1000, 0, 0);
        if is_composable(second * 1000, 0, 0) {
            assert(first_before(range) == Some(Snowflake(bound as u64)));
            assert(message.id.0 < bound <==> unix_ms(message.id) < second * 1000);
        }
        assert(unix_ms(message.id) < second * 1000 <==> unix_ms(message.id) / 1000 < second);
    }
}

/// The messages in the range are those that a test of each one by itself picks out.
proof fn lemma_all_in_window(
    history: Seq<Message>,
    range: DateRange,
    picks: spec_fn(Message) -> bool,
)
    requires
        forall|m: Message| #[trigger] picks(m) == in_window(range, m),
    ensures
        all_in_window(history, range) == history.filter(picks),
    decreases history.len(),
{
    reveal(Seq::filter);
    if history.len() > 0 {
        lemma_all_in_window(history.drop_last(), range, picks);
        assert(picks(history.last()) == in_window(range, history.last()));
    } else {
        assert(all_in_window(history, range) =~= history.filter(picks));
    }
}

/// Against a channel whose history is answered newest first, and while the clock stays within
/// five minutes, a fetch completes, after no more replies than there are messages and one, with
/// all messages in the range, newest first, up to the limit. A message is in the range if the
/// second of its identifier is between the range's bounds.
pub proof fn law_fetch_covers_range(
    channel: Snowflake,
    range: DateRange,
    limit: Option<usize>,
    history: Seq<Message>,
    clock: spec_fn(nat) -> u128,
    turns: nat,
)
    requires
        forall|i: int, j: int|
            0 <= i < j < history.len() ==> (#[trigger] history[i]).id.0 > (
            #[trigger] history[j]).id.0,
        match range.end {
            Bound::Included(end) => 0 <= end.nanos() / 1_000_000_000 * 1000 - 1_420_070_400_000
                < 0x400_0000_0000,
            Bound::Excluded(end) => 0 <= end.nanos() / 1_000_000_000 * 1000 - 1_420_070_400_000
                < 0x400_0000_0000,
            Bound::Unbounded => true,
        },
        limit != Some(0usize),
        forall|t: nat| #[trigger] clock(t) < clock(0) + 300_000_000_000,
        turns > history.len(),
    ensures
        ({
            let all = history.filter(
                |m: Message|
                    {
                        let t = (m.id.0 as int / 0x40_0000 + 1_420_070_400_000) / 1000
                            * 1_000_000_000;
                        &&& match range.start {
                            Bound::Included(start) => start.nanos() <= t,
                            Bound::Excluded(start) => start.nanos() < t,
                            Bound::Unbounded => true,
                        }
                        &&& match range.end {
                            Bound::Included(end) => t <= end.nanos(),
                            Bound::Excluded(end) => t < end.nanos(),
                            Bound::Unbounded => true,
                        }
                    },
            );
            let wanted = match limit {
                Some(limit) => if limit < all.len() {
                    all.take(limit as int)
                } else {
                    all
                },
                None => all,
            };
            let result = outcome(
                initial(channel, range, limit),
                history,
                first_before(range),
                batch_size(limit, 0),
                clock,
                0,
                turns,
            );
            &&& result == Some(wanted)
            &&& result == Some(limited(all_in_window(history, range), limit))
        }),
{
    let first = first_before(range);
    lemma_older_is_suffix(history, first);
    lemma_leading_is_prefix(range, older(history, first));
    lemma_outcome(initial(channel, range, limit), history, first, clock, turns);
    law_range_is_in_front(history, range);
    lemma_all_in_window(
        history,
        range,
        |m: Message|
            {
                let t = (m.id.0 as int / 0x40_0000 + 1_420_070_400_000) / 1000
                    * 1_000_000_000;
                &&& match range.start {
                    Bound::Included(start) => start.nanos() <= t,
                    Bound::Excluded(start) => start.nanos() < t,
                    Bound::Unbounded => true,
                }
                &&& match range.end {
                    Bound::Included(end) => t <= end.nanos(),
                    Bound::Excluded(end) => t < end.nanos(),
                    Bound::Unbounded => true,
                }
            },
    );
}

/// A message of the history is in the result of an unlimited fetch in time if and only if the
/// second of its identifier is between the range's bounds.
pub proof fn law_fetch_finds_message(
    channel: Snowflake,
    range: DateRange,
    history: Seq<Message>,
    clock: spec_fn(nat) -> u128,
    turns: nat,
    at: int,
)
    requires
        forall|i: int, j: int|
            0 <= i < j < history.len() ==> (#[trigger] history[i]).id.0 > (
            #[trigger] history[j]).id.0,
        match range.end {
            Bound::Included(end) => 0 <= end.nanos() / 1_000_000_000 * 1000 - 1_420_070_400_000
                < 0x400_0000_0000,
            Bound::Excluded(end) => 0 <= end.nanos() / 1_000_000_000 * 1000 - 1_420_070_400_000
                < 0x400_0000_0000,
            Bound::Unbounded => true,
        },
        forall|t: nat| #[trigger] clock(t) < clock(0) + 300_000_000_000,
        turns > history.len(),
        0 <= at < history.len(),
    ensures
        ({
            let result = outcome(
                initial(channel, range, None),
                history,
                first_before(range),
                batch_size(None, 0),
                clock,
                0,
                turns,
            );
            let t = ((history[at].id.0 >> 22) as int + 1_420_070_400_000) / 1000 * 1_000_000_000;
            &&& result is Some
            &&& result->0.contains(history[at]) <==> {
                &&& match range.start {
                    Bound::Included(start) => start.nanos() <= t,
                    Bound::Excluded(start) => start.nanos() < t,
                    Bound::Unbounded => true,
                }
                &&& match range.end {
                    Bound::Included(end) => t <= end.nanos(),
                    Bound::Excluded(end) => t < end.nanos(),
                    Bound::Unbounded => true,
                }
            }
        }),
{
    law_fetch_covers_range(channel, range, None, history, clock, turns);
    let id: u64 = history[at].id.0;
    assert(id >> 22 == id / 0x40_0000) by (bit_vector);
    let picks = |m: Message|
        {
            let t = (m.id.0 as int / 0x40_0000 + 1_420_070_400_000) / 1000
                * 1_000_000_000;
            &&& match range.start {
                Bound::Included(start) => start.nanos() <= t,
                Bound::Excluded(start) => start.nanos() < t,
                Bound::Unbounded => true,
            }
            &&& match range.end {
                Bound::Included(end) => t <= end.nanos(),
                Bound::Excluded(end) => t < end.nanos(),
                Bound::Unbounded => true,
            }
        };
    let all = history.filter(picks);
    if picks(history[at]) {
        history.lemma_filter_contains_rev(picks, history[at]);
    } else if all.contains(history[at]) {
        let k = choose|k: int| 0 <= k < all.len() && all[k] == history[at];
        history.lemma_filter_pred(picks, k);
    }
}

/// However the clock runs, a fetch that completes gives out the newest of the messages in the
/// range: one that is cut short by the clock leaves out only the oldest.
pub proof fn law_fetch_cuts_off_oldest(
    channel: Snowflake,
    range: DateRange,
    limit: Option<usize>,
    history: Seq<Message>,
    clock: spec_fn(nat) -> u128,
    turns: nat,
)
    requires
        forall|i: int, j: int|
            0 <= i < j < history.len() ==> (#[trigger] history[i]).id.0 > (
            #[trigger] history[j]).id.0,
        match range.end {
            Bound::Included(end) => 0 <= end.nanos() / 1_000_000_000 * 1000 - 1_420_070_400_000
                < 0x400_0000_0000,
            Bound::Excluded(end) => 0 <= end.nanos() / 1_000_000_000 * 1000 - 1_420_070_400_000
                < 0x400_0000_0000,
            Bound::Unbounded => true,
        },
        limit != Some(0usize),
    ensures
        ({
            let all = history.filter(
                |m: Message|
                    {
                        let t = (m.id.0 as int / 0x40_0000 + 1_420_070_400_000) / 1000
                            * 1_000_000_000;
                        &&& match range.start {
                            Bound::Included(start) => start.nanos() <= t,
                            Bound::Excluded(start) => start.nanos() < t,
                            Bound::Unbounded => true,
                        }
                        &&& match range.end {
                            Bound::Included(end) => t <= end.nanos(),
                            Bound::Excluded(end) => t < end.nanos(),
                            Bound::Unbounded => true,
                        }
                    },
            );
            let wanted = match limit {
                Some(limit) => if limit < all.len() {
                    all.take(limit as int)
                } else {
                    all
                },
                None => all,
            };
            let result = outcome(
                initial(channel, range, limit),
                history,
                first_before(range),
                batch_size(limit, 0),
                clock,
                0,
                turns,
            );
            &&& result matches Some(messages) ==> messages.is_prefix_of(wanted)
            &&& result matches Some(messages) ==> messages.is_prefix_of(
                limited(all_in_window(history, range), limit),
            )
        }),
{
    lemma_outcome(initial(channel, range, limit), history, first_before(range), clock, turns);
    law_range_is_in_front(history, range);
    lemma_all_in_window(
        history,
        range,
        |m: Message|
            {
                let t = (m.id.0 as int / 0x40_0000 + 1_420_070_400_000) / 1000
                    * 1_000_000_000;
                &&& match range.start {
                    Bound::Included(start) => start.nanos() <= t,
                    Bound::Excluded(start) => start.nanos() < t,
                    Bound::Unbounded => true,
                }
                &&& match range.end {
                    Bound::Included(end) => t <= end.nanos(),
                    Bound::Excluded(end) => t < end.nanos(),
                    Bound::Unbounded => true,
                }
            },
    );
}

/// A message is in the range if the second of its identifier, the upper 42 bits of which count
/// milliseconds from the start of the year 2015, is between the range's bounds.
pub proof fn law_window_of_message(range: DateRange, message: Message)
    ensures
        ({
            let t = ((message.id.0 >> 22) as int + 1_420_070_400_000) / 1000 * 1_000_000_000;
            in_window(range, message) <==> {
                &&& match range.start {
                    Bound::Included(start) => start.nanos() <= t,
                    Bound::Excluded(start) => start.nanos() < t,
                    Bound::Unbounded => true,
                }
                &&& match range.end {
                    Bound::Included(end) => t <= end.nanos(),
                    Bound::Excluded(end) => t < end.nanos(),
                    Bound::Unbounded => true,
                }
            }
        }),
{
    let id: u64 = message.id.0;
    assert(id >> 22 == id / 0x40_0000) by (bit_vector);
}

/// Of a batch, exactly the messages before the first one outside the range are taken.
pub proof fn law_batch_is_cut(range: DateRange, batch: Seq<Message>, count: int)
    requires
        0 <= count <= batch.len(),
    ensures
        leading(range, batch) == batch.take(count) <==> {
            &&& forall|i: int| 0 <= i < count ==> in_window(range, #[trigger] batch[i])
            &&& count < batch.len() ==> !in_window(range, batch[count])
        },
{
    lemma_leading_is_prefix(range, batch);
    lemma_leading_in_window(range, batch);
    if leading(range, batch) == batch.take(count) {
        assert(leading(range, batch).len() == count);
        assert forall|i: int| 0 <= i < count implies in_window(range, #[trigger] batch[i]) by {
            assert(batch[i] == leading(range, batch)[i]);
        }
    } else if (forall|i: int| 0 <= i < count ==> in_window(range, #[trigger] batch[i])) && (count
        < batch.len() ==> !in_window(range, batch[count])) {
        lemma_leading_unique(range, batch, count);
    }
}

/// As many messages are asked for as are missing, but never more than a hundred, and a hundred
/// where there is no limit.
pub proof fn law_batch_size(limit: Option<usize>, collected: int)
    requires
        collected >= 0,
    ensures
        0 <= batch_size(limit, collected) <= 100,
        match limit {
            None => batch_size(limit, collected) == 100,
            Some(limit) => {
                let count = batch_size(Some(limit), collected);
                &&& collected >= limit ==> count == 0
                &&& collected < limit ==> collected + count <= limit
                &&& collected < limit && count < 100 ==> collected + count == limit
            },
        },
{
}

/// The second in which a range ends is the one that holds its end.
pub proof fn law_end_second(range: DateRange)
    ensures
        match range.end {
            Bound::Unbounded => end_second(range) is None,
            Bound::Included(end) => end_second(range) matches Some(second) && second
                * 1_000_000_000 <= end.nanos() < (second + 1) * 1_000_000_000,
            Bound::Excluded(end) => end_second(range) matches Some(second) && second
                * 1_000_000_000 <= end.nanos() < (second + 1) * 1_000_000_000,
        },
{
}

/// The first request asks for a message if and only if the second of the message's identifier
/// is not past the range.
pub proof fn law_first_request(range: DateRange, message: Message)
    requires
        match range.end {
            Bound::Included(end) => 0 <= end.nanos() / 1_000_000_000 * 1000 - 1_420_070_400_000
                < 0x400_0000_0000,
            Bound::Excluded(end) => 0 <= end.nanos() / 1_000_000_000 * 1000 - 1_420_070_400_000
                < 0x400_0000_0000,
            Bound::Unbounded => true,
        },
    ensures
        ({
            let t = ((message.id.0 >> 22) as int + 1_420_070_400_000) / 1000 * 1_000_000_000;
            (match first_before(range) {
                Some(id) => message.id.0 < id.0,
                None => true,
            }) <==> match range.end {
                Bound::Included(end) => t <= end.nanos(),
                Bound::Excluded(end) => t < end.nanos(),
                Bound::Unbounded => true,
            }
        }),
        range.end is Unbounded ==> first_before(range) is None,
{
    let id: u64 = message.id.0;
    assert(id >> 22 == id / 0x40_0000) by (bit_vector);
    lemma_older_before_end(message, range);
}

/// A fetch starts with nothing collected, and stays with its channel, its range and its limit.
/// Its clock starts with the first batch, if that is complete, and is not set again.
pub proof fn law_fetch_keeps_its_task(
    channel: Snowflake,
    range: DateRange,
    limit: Option<usize>,
    state: FetchState,
    batch: Seq<Message>,
    now: u128,
)
    ensures
        ({
            let start = initial(channel, range, limit);
            &&& start.channel == channel
            &&& start.range == range
            &&& start.limit == limit
            &&& start.messages.len() == 0
            &&& start.started is None
            &&& valid(start)
        }),
        ({
            let next = absorb(state, batch, now);
            &&& next.channel == state.channel
            &&& next.range == state.range
            &&& next.limit == state.limit
            &&& state.messages.is_prefix_of(next.messages)
            &&& next.messages.skip(state.messages.len() as int) == leading(state.range, batch)
            &&& state.started is Some ==> next.started == state.started
            &&& state.started is None ==> {
                &&& next.started is Some ==> next.started == Some(now)
                &&& next.started is Some <==> next.messages.len() >= state.messages.len() + 100
            }
        }),
{
    let next = absorb(state, batch, now);
    assert(next.messages.skip(state.messages.len() as int) =~= leading(state.range, batch));
}

/// When a fetch goes on: as long as the limit is not reached, the first batch brought a hundred
/// messages of the range or a later one at least one, and less than five minutes have passed
/// since the first. It then asks for messages older than the last one that it has. Only where
/// the five minutes alone have ended it does it count as cut short.
pub proof fn law_when_a_fetch_goes_on(state: FetchState, batch: Seq<Message>, now: u128)
    requires
        valid(state),
    ensures
        ({
            let all = state.messages + leading(state.range, batch);
            let brought_enough = match state.started {
                None => leading(state.range, batch).len() >= 100,
                Some(_) => leading(state.range, batch).len() >= 1,
            };
            let wants_more = match state.limit {
                None => true,
                Some(limit) => all.len() < limit,
            };
            let in_time = match state.started {
                None => true,
                Some(started) => now < started + 300_000_000_000,
            };
            match decide(state, batch, now) {
                Decision::Ask { before, count } => {
                    &&& brought_enough && wants_more && in_time
                    &&& before == Some(all.last().id)
                    &&& count == batch_size(state.limit, all.len() as int)
                },
                Decision::Finish { timed_out } => {
                    &&& !(brought_enough && wants_more && in_time)
                    &&& timed_out <==> brought_enough && wants_more
                },
            }
        }),
{
    lemma_leading_in_window(state.range, batch);
    let all = state.messages + leading(state.range, batch);
    if all.len() > 0 {
        assert(in_window(state.range, all[all.len() - 1]));
    }
}

/// A fetch starts unless it is for no messages, or for a range that ends in a second for which
/// there are no identifiers.
pub proof fn law_when_a_fetch_starts<H>(
    client: DiscordClient<H>,
    channel: Snowflake,
    range: DateRange,
    limit: Option<usize>,
    res: Result<(RangeFetch, String), Error>,
)
    requires
        call_ensures(
            DiscordClient::<H>::get_messages_range,
            (&client, channel, range, limit),
            res,
        ),
    ensures
        ({
            let ms = match range.end {
                Bound::Included(end) => end.nanos() / 1_000_000_000 * 1000,
                Bound::Excluded(end) => end.nanos() / 1_000_000_000 * 1000,
                Bound::Unbounded => 1_420_070_400_000,
            };
            let early = ms < 1_420_070_400_000;
            let late = ms > 1_420_070_400_000 + 4_398_046_511_103;
            &&& early ==> (res matches Err(Error::TimestampTooEarly))
            &&& late ==> (res matches Err(Error::TimestampTooLarge))
            &&& !early && !late && limit == Some(0usize) ==> (res matches Err(Error::InvalidLimit))
            &&& !early && !late && limit != Some(0usize) ==> {
                &&& res matches Ok((fetch, url))
                &&& fetch@.channel == channel
                &&& fetch@.range == range
                &&& fetch@.limit == limit
                &&& fetch@.messages.len() == 0
                &&& url@ == client.base() + messages_path(
                    channel,
                    first_before(range),
                    (if limit is Some && limit->0 < 100 {
                        limit->0 as u8
                    } else {
                        100u8
                    }),
                )
            }
        }),
{
}

/// A reply that could not be had ends a fetch with its error. Any other adds, behind what was
/// collected, its messages before the first one outside the range, and either completes the
/// fetch or leads to a request for messages older than the last one collected.
pub proof fn law_reply_is_taken_in<H>(
    fetch: RangeFetch,
    client: DiscordClient<H>,
    reply: Result<Vec<Message>, Error>,
    now: u128,
    step: FetchStep,
    count: int,
)
    requires
        valid(fetch@),
        call_ensures(RangeFetch::step::<H>, (fetch, &client, reply, now), step),
        reply matches Ok(batch) ==> {
            &&& 0 <= count <= batch@.len()
            &&& forall|i: int| 0 <= i < count ==> in_window(fetch@.range, #[trigger] batch@[i])
            &&& count < batch@.len() ==> !in_window(fetch@.range, batch@[count])
        },
    ensures
        match (reply, step) {
            (Err(e), _) => step == FetchStep::Fail(e),
            (Ok(_), FetchStep::Fail(_)) => false,
            (Ok(batch), FetchStep::Done { messages, timed_out }) => {
                &&& messages@ == fetch@.messages + batch@.take(count)
                &&& timed_out ==> fetch@.started is Some && now >= fetch@.started->0
                    + 300_000_000_000
            },
            (Ok(batch), FetchStep::Request(next, url)) => {
                let all = fetch@.messages + batch@.take(count);
                &&& next@.messages == all
                &&& next@.channel == fetch@.channel
                &&& next@.range == fetch@.range
                &&& next@.limit == fetch@.limit
                &&& all.len() > 0
                &&& fetch@.started is None ==> count >= 100
                &&& exists|size: u8| #[trigger]
                    messages_path(fetch@.channel, Some(all.last().id), size) == url@.skip(
                        client.base().len() as int,
                    ) && 1 <= size <= 100 && match fetch@.limit {
                        None => size == 100,
                        Some(limit) => all.len() + size <= limit && (size == 100 || all.len()
                            + size == limit),
                    }
            },
        },
{
    if let Ok(batch) = reply {
        lemma_leading_unique(fetch@.range, batch@, count);
        law_when_a_fetch_goes_on(fetch@, batch@, now);
        let all = fetch@.messages + batch@.take(count);
        law_batch_size(fetch@.limit, all.len() as int);
        if let FetchStep::Request(next, url) = step {
            let size = batch_size(fetch@.limit, all.len() as int) as u8;
            let path = messages_path(fetch@.channel, Some(all.last().id), size);
            assert(url@.skip(client.base().len() as int) =~= path);
        }
    }
}

} // verus!
