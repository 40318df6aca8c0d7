use discord_links::paging::{FetchStep, FETCH_TIMEOUT};
use discord_links::utils::unix_ms_to_snowflake;
use discord_links::{Bound, DateRange, DiscordClient, Error, Message, Snowflake, User, UtcDateTime};

const BASE: i64 = 1_700_000_000;

fn at(second: i64) -> UtcDateTime {
    UtcDateTime::from_unix_timestamp(second).unwrap()
}

fn id_at(second: i64, sequence: u16) -> Snowflake {
    unix_ms_to_snowflake(second * 1000, 0, sequence).unwrap()
}

fn message(id: Snowflake) -> Message {
    Message {
        id,
        channel_id: Snowflake(1),
        guild_id: None,
        author: User { id: Snowflake(2), username: "u".to_string(), global_name: None, bot: false },
        content: String::new(),
        timestamp: at(0),
        attachments: Vec::new(),
        embeds: Vec::new(),
        message_reference: None,
    }
}

/// One message per second, the newest first.
fn history(count: i64) -> Vec<Message> {
    (0..count).rev().map(|i| message(id_at(BASE + i, 0))).collect()
}

fn client() -> DiscordClient<()> {
    DiscordClient::new(()).with_base_url("mock:".to_string())
}

fn number_after(url: &str, key: &str) -> Option<u64> {
    let start = url.find(key)? + key.len();
    let digits: String = url[start..].chars().take_while(|c| c.is_ascii_digit()).collect();
    digits.parse().ok()
}

fn answer(history: &[Message], url: &str) -> Vec<Message> {
    assert!(url.starts_with("mock:/channels/1/messages?"));
    let before = number_after(url, "before=").unwrap_or(u64::MAX);
    let count = number_after(url, "limit=").unwrap() as usize;
    assert!(0 < count && count <= 100);
    history.iter().filter(|m| m.id.0 < before).take(count).cloned().collect()
}

fn fetch(history: &[Message], range: DateRange, limit: Option<usize>, clock: fn(u128) -> u128) -> (Vec<Message>, usize) {
    let client = client();
    let (mut fetch, mut url) = client.get_messages_range(Snowflake(1), range, limit).unwrap();
    let mut requests = 0;
    loop {
        let now = clock(requests as u128);
        requests += 1;
        match fetch.step(&client, Ok(answer(history, &url)), now) {
            FetchStep::Request(next, next_url) => {
                fetch = next;
                url = next_url;
            }
            FetchStep::Done { messages, .. } => return (messages, requests),
            FetchStep::Fail(e) => panic!("{e:?}"),
        }
    }
}

fn still(_: u128) -> u128 {
    7
}

fn ids(messages: &[Message]) -> Vec<u64> {
    messages.iter().map(|m| m.id.0).collect()
}

#[test]
fn all_messages_in_a_range_are_fetched() {
    let history = history(350);
    let range = DateRange::between(at(BASE + 20), at(BASE + 300));
    let (messages, requests) = fetch(&history, range, None, still);
    assert_eq!(ids(&messages), ids(&history[50..330]));
    assert_eq!(requests, 4);
    let open = DateRange { start: Bound::Unbounded, end: Bound::Unbounded };
    assert_eq!(ids(&fetch(&history, open, None, still).0), ids(&history));
}

#[test]
fn a_short_first_batch_is_all() {
    let history = history(99);
    let open = DateRange { start: Bound::Unbounded, end: Bound::Unbounded };
    let (messages, requests) = fetch(&history, open, None, still);
    assert_eq!((messages.len(), requests), (99, 1));
    let (messages, requests) = fetch(&[], open, None, still);
    assert_eq!((messages.len(), requests), (0, 1));
}

#[test]
fn the_limit_is_kept() {
    let history = history(350);
    let open = DateRange { start: Bound::Unbounded, end: Bound::Unbounded };
    for (limit, expected) in [(1, 1), (99, 1), (100, 1), (101, 2), (250, 3), (400, 5)] {
        let (messages, requests) = fetch(&history, open, Some(limit), still);
        assert_eq!(requests, expected);
        assert_eq!(ids(&messages), ids(&history[..limit.min(350)]));
    }
}

#[test]
fn fetching_stops_after_five_minutes() {
    let history = history(350);
    let open = DateRange { start: Bound::Unbounded, end: Bound::Unbounded };
    // The clock starts with the first batch.
    let (messages, requests) = fetch(&history, open, None, |turn| 1000 + turn * FETCH_TIMEOUT);
    assert_eq!((messages.len(), requests), (200, 2));
    let (messages, _) = fetch(&history, open, None, |turn| 1000 + turn * (FETCH_TIMEOUT / 10));
    assert_eq!(messages.len(), 350);
}

#[test]
fn messages_of_the_last_second_are_fetched() {
    let mut history = history(10);
    // A second message in the second of the end, later than its first identifier.
    history.insert(4, message(id_at(BASE + 5, 7)));
    let until = |end| DateRange { start: Bound::Unbounded, end };
    let included = until(Bound::Included(at(BASE + 5)));
    assert_eq!(ids(&fetch(&history, included, None, still).0), ids(&history[4..]));
    let half = UtcDateTime::from_parts((BASE as i128 + 5) * 1_000_000_000 + 500_000_000, 0).unwrap();
    for end in [Bound::Excluded(half), Bound::Included(half)] {
        assert_eq!(ids(&fetch(&history, until(end), None, still).0), ids(&history[4..]));
    }
    let full = until(Bound::Excluded(at(BASE + 5)));
    assert_eq!(ids(&fetch(&history, full, None, still).0), ids(&history[6..]));
}

#[test]
fn an_included_end_is_asked_for() {
    let client = client();
    let range = DateRange { start: Bound::Unbounded, end: Bound::Included(at(1_420_070_401)) };
    let (_, url) = client.get_messages_range(Snowflake(1), range, None).unwrap();
    assert_eq!(url, "mock:/channels/1/messages?before=8388608000&limit=100");
}

#[test]
fn nothing_is_past_the_last_second_of_identifiers() {
    let client = client();
    let last = at(5_818_116_911);
    let ask = |end| client.get_messages_range(Snowflake(1), DateRange { start: Bound::Unbounded, end }, None);
    let (_, url) = ask(Bound::Included(last)).unwrap();
    assert_eq!(url, "mock:/channels/1/messages?limit=100");
    let (_, url) = ask(Bound::Excluded(last)).unwrap();
    assert_eq!(url, format!("mock:/channels/1/messages?before={}&limit=100", id_at(5_818_116_911, 0).0));
    assert!(matches!(ask(Bound::Included(at(5_818_116_912))), Err(Error::TimestampTooLarge)));
}

#[test]
fn a_fetch_says_when_time_ran_out() {
    let client = client();
    let history = history(350);
    let open = DateRange { start: Bound::Unbounded, end: Bound::Unbounded };
    for (later, expected) in [(FETCH_TIMEOUT - 1, None), (FETCH_TIMEOUT, Some(true))] {
        let (fetch, url) = client.get_messages_range(Snowflake(1), open, None).unwrap();
        let FetchStep::Request(fetch, url) = fetch.step(&client, Ok(answer(&history, &url)), 5) else {
            panic!("more is needed");
        };
        let ended = match fetch.step(&client, Ok(answer(&history, &url)), 5 + later) {
            FetchStep::Done { timed_out, .. } => Some(timed_out),
            _ => None,
        };
        assert_eq!(ended, expected);
    }
    let (fetch, url) = client.get_messages_range(Snowflake(1), open, Some(100)).unwrap();
    match fetch.step(&client, Ok(answer(&history, &url)), 5) {
        FetchStep::Done { timed_out, .. } => assert!(!timed_out),
        other => panic!("{other:?}"),
    }
}

#[test]
fn a_batch_is_cut_at_the_first_message_outside_the_range() {
    let client = client();
    let range = DateRange::between(at(BASE + 10), at(BASE + 20));
    let (fetch, _) = client.get_messages_range(Snowflake(1), range, None).unwrap();
    let batch: Vec<Message> = [15, 14, 9, 13].iter().map(|s| message(id_at(BASE + s, 0))).collect();
    match fetch.step(&client, Ok(batch.clone()), 0) {
        FetchStep::Done { messages, timed_out } => {
            assert_eq!(ids(&messages), ids(&batch[..2]));
            assert!(!timed_out);
        }
        other => panic!("{other:?}"),
    }
}

#[test]
fn addresses_of_a_fetch() {
    let client = client();
    let range = DateRange::between(at(BASE), at(BASE + 1));
    let (_, url) = client.get_messages_range(Snowflake(1), range, Some(5)).unwrap();
    assert_eq!(url, format!("mock:/channels/1/messages?before={}&limit=5", id_at(BASE + 1, 0).0));
    let open = DateRange { start: Bound::Unbounded, end: Bound::Unbounded };
    let (fetch, url) = client.get_messages_range(Snowflake(1), open, Some(130)).unwrap();
    assert_eq!(url, "mock:/channels/1/messages?limit=100");
    let history = history(200);
    match fetch.step(&client, Ok(history[..100].to_vec()), 0) {
        FetchStep::Request(_, url) => {
            assert_eq!(url, format!("mock:/channels/1/messages?before={}&limit=30", history[99].id.0))
        }
        other => panic!("{other:?}"),
    }
}

#[test]
fn a_fetch_that_cannot_start() {
    let client = client();
    let open = DateRange { start: Bound::Unbounded, end: Bound::Unbounded };
    let res = client.get_messages_range(Snowflake(1), open, Some(0));
    assert!(matches!(res, Err(Error::InvalidLimit)));
    let early = DateRange::between(at(0), at(1_420_070_399));
    let res = client.get_messages_range(Snowflake(1), early, Some(0));
    assert!(matches!(res, Err(Error::TimestampTooEarly)));
    let late = DateRange::between(at(0), at(10_000_000_000));
    let res = client.get_messages_range(Snowflake(1), late, None);
    assert!(matches!(res, Err(Error::TimestampTooLarge)));
}

#[test]
fn a_failed_request_fails_the_fetch() {
    let client = client();
    let open = DateRange { start: Bound::Unbounded, end: Bound::Unbounded };
    let (fetch, _) = client.get_messages_range(Snowflake(1), open, None).unwrap();
    let step = fetch.step(&client, Err(Error::HttpStatus(500)), 0);
    assert!(matches!(step, FetchStep::Fail(Error::HttpStatus(500))));
}

#[test]
fn a_message_was_sent_when_its_identifier_was_made() {
    let t = message(id_at(BASE, 9)).timestamp().unwrap();
    assert_eq!(t.unix_timestamp(), BASE);
}

#[test]
fn addresses_of_single_requests() {
    let client = DiscordClient::new("http");
    assert_eq!(*client.http(), "http");
    assert_eq!(client.get_channel(Snowflake(5)), "https://discord.com/api/v10/channels/5");
    assert_eq!(client.get_guild(Snowflake(6)), "https://discord.com/api/v10/guilds/6");
    assert_eq!(
        client.get_messages(Snowflake(5), 255).unwrap(),
        "https://discord.com/api/v10/channels/5/messages?limit=255"
    );
    assert_eq!(
        client.get_messages_before(Snowflake(5), Snowflake(9), 1).unwrap(),
        "https://discord.com/api/v10/channels/5/messages?before=9&limit=1"
    );
    assert!(matches!(client.get_messages(Snowflake(5), 0), Err(Error::InvalidLimit)));
    let res = client.get_messages_before(Snowflake(5), Snowflake(9), 0);
    assert!(matches!(res, Err(Error::InvalidLimit)));
    let client = client.with_base_url("http://localhost:1".to_string());
    assert_eq!(*client.http(), "http");
    assert_eq!(client.get_guild(Snowflake(6)), "http://localhost:1/guilds/6");
}
