use discord_links::links::{build_excluder, collect_links, keep_links, message_links};
use discord_links::scan::{fetch_channel_links, report_links, ScanStep};
use discord_links::{
    Attachment, Channel, DateRange, DiscordClient, Embed, Error, Guild, Message, Snowflake, User,
    UtcDateTime,
};

const BASE: i64 = 1_700_000_000;

fn at(second: i64) -> UtcDateTime {
    UtcDateTime::from_unix_timestamp(second).unwrap()
}

fn message(content: &str, attachments: &[&str], embeds: &[Option<&str>]) -> Message {
    Message {
        id: discord_links::utils::unix_ms_to_snowflake(BASE * 1000, 0, 0).unwrap(),
        channel_id: Snowflake(1),
        guild_id: None,
        author: User { id: Snowflake(2), username: "u".to_string(), global_name: None, bot: false },
        content: content.to_string(),
        timestamp: at(BASE),
        attachments: attachments
            .iter()
            .map(|url| Attachment {
                id: Snowflake(3),
                filename: "f".to_string(),
                url: url.to_string(),
                content_type: None,
            })
            .collect(),
        embeds: embeds
            .iter()
            .map(|url| Embed { url: url.map(|u| u.to_string()), title: None, description: None })
            .collect(),
        message_reference: None,
    }
}

fn strings(texts: &[&str]) -> Vec<String> {
    texts.iter().map(|t| t.to_string()).collect()
}

#[test]
fn links_of_a_message_come_in_order() {
    let m = message("", &["a1", "a2"], &[Some("e1"), None, Some("e2")]);
    let links = message_links(strings(&["c1", "c2"]), &m);
    assert_eq!(links, ["c1", "c2", "a1", "a2", "e1", "e2"]);
}

#[test]
fn links_are_found_in_content() {
    let messages = vec![
        message("see https://example.com/a, or (http://b.org).", &["https://att.net/x"], &[]),
        message("nothing here", &[], &[None]),
        message("mail me@example.com", &[], &[Some("https://emb.io")]),
    ];
    let expected = [
        "https://example.com/a",
        "http://b.org",
        "https://att.net/x",
        "me@example.com",
        "https://emb.io",
    ];
    assert_eq!(collect_links(&messages), expected);
}

#[test]
fn some_links_are_of_no_interest() {
    let excluder = build_excluder().unwrap();
    for url in [
        "https://cdn.example.com",
        "https://CDN.example.com",
        "https://media.tenor.com/x",
        "https://www.redgifs.com",
        "https://images.discordapp.net",
        "https://i.redd.it/y.png",
        "https://64.media.tumblr.com",
        "https://x/?u=i.ReDd.It",
    ] {
        assert!(excluder.is_match(url), "{url}");
    }
    for url in ["https://example.com", "https://cdn/", "https://reddit.com", "https://tumblr.com", ""] {
        assert!(!excluder.is_match(url), "{url}");
    }
}

#[test]
fn kept_links_stay_in_order() {
    let excluder = build_excluder().unwrap();
    let links = strings(&["https://b", "https://cdn.x", "https://a", "https://b"]);
    let (kept, excluded) = keep_links(links, &excluder);
    assert_eq!(kept, ["https://b", "https://a", "https://b"]);
    assert_eq!(excluded, 1);
}

#[test]
fn the_guild_does_not_change_the_links() {
    let excluder = build_excluder().unwrap();
    let messages = vec![message("https://a.org https://cdn.a.org", &["https://i.redd.it/z"], &[])];
    let (kept, excluded) = report_links(messages, Snowflake(7), &excluder);
    assert_eq!(kept, ["https://a.org"]);
    assert_eq!(excluded, 2);
}

#[test]
fn a_guild_is_noted_in_every_message() {
    let mut messages = vec![message("x", &["y"], &[]), message("z", &[], &[])];
    discord_links::links::assign_guild(&mut messages, Snowflake(7));
    assert!(messages.iter().all(|m| m.guild_id == Some(Snowflake(7))));
    assert_eq!(messages[0].content, "x");
    assert_eq!(messages[0].attachments[0].url, "y");
}

fn channel(guild_id: Option<Snowflake>) -> Channel {
    Channel { id: Snowflake(1), channel_type: 0, name: Some("general".to_string()), guild_id }
}

#[test]
fn a_scan_asks_for_channel_guild_and_messages() {
    let client = DiscordClient::new(()).with_base_url("mock:".to_string());
    let excluder = build_excluder().unwrap();
    let range = DateRange::between(at(BASE - 10), at(BASE + 10));
    let (scan, url) = fetch_channel_links(&client, Snowflake(1), range);
    assert_eq!(url, "mock:/channels/1");
    let (scan, url) = scan.on_channel(&client, Ok(channel(Some(Snowflake(4))))).unwrap();
    assert_eq!(url, "mock:/guilds/4");
    let guild = Guild { id: Snowflake(4), name: "home".to_string() };
    let (scan, url) = scan.on_guild(&client, Ok(guild)).unwrap();
    assert!(url.starts_with("mock:/channels/1/messages?before="));
    assert!(url.ends_with("&limit=100"));
    let batch = vec![message("https://a.org https://cdn.a.org", &[], &[])];
    match scan.on_messages(&client, Ok(batch), 0, &excluder) {
        ScanStep::Done(report) => {
            assert_eq!(report.kept, ["https://a.org"]);
            assert_eq!(report.excluded, 1);
            assert_eq!(report.channel_name.as_deref(), Some("general"));
            assert_eq!(report.server_name, "home");
            let first = report.first.unwrap();
            assert_eq!(first.id.0, message("", &[], &[]).id.0);
            assert_eq!(first.content, "https://a.org https://cdn.a.org");
            assert!(!report.timed_out);
        }
        other => panic!("{other:?}"),
    }
}

#[test]
fn a_long_scan_asks_again() {
    let client = DiscordClient::new(()).with_base_url("mock:".to_string());
    let excluder = build_excluder().unwrap();
    let range = DateRange::between(at(BASE - 10), at(BASE + 10));
    let (scan, _) = fetch_channel_links(&client, Snowflake(1), range);
    let (scan, _) = scan.on_channel(&client, Ok(channel(Some(Snowflake(4))))).unwrap();
    let guild = Guild { id: Snowflake(4), name: "home".to_string() };
    let (scan, _) = scan.on_guild(&client, Ok(guild)).unwrap();
    let batch: Vec<Message> = (0..100).map(|_| message("https://a.org", &[], &[])).collect();
    let scan = match scan.on_messages(&client, Ok(batch.clone()), 0, &excluder) {
        ScanStep::Request(scan, url) => {
            assert_eq!(url, format!("mock:/channels/1/messages?before={}&limit=100", batch[99].id.0));
            scan
        }
        other => panic!("{other:?}"),
    };
    match scan.on_messages(&client, Ok(Vec::new()), 1, &excluder) {
        ScanStep::Done(report) => assert_eq!(report.kept.len(), 100),
        other => panic!("{other:?}"),
    }
}

#[test]
fn a_scan_fails_with_its_requests() {
    let client = DiscordClient::new(());
    let excluder = build_excluder().unwrap();
    let range = DateRange::between(at(BASE - 10), at(BASE + 10));
    let start = || fetch_channel_links(&client, Snowflake(1), range).0;
    match start().on_channel(&client, Ok(channel(None))) {
        Err(Error::MissingGuildId(id)) => assert_eq!(id, "1"),
        other => panic!("{other:?}"),
    }
    let res = start().on_channel(&client, Err(Error::HttpStatus(404)));
    assert!(matches!(res, Err(Error::HttpStatus(404))));
    let guild = || start().on_channel(&client, Ok(channel(Some(Snowflake(4))))).unwrap().0;
    let res = guild().on_guild(&client, Err(Error::HttpStatus(403)));
    assert!(matches!(res, Err(Error::HttpStatus(403))));
    let home = Guild { id: Snowflake(4), name: "home".to_string() };
    let scan = guild().on_guild(&client, Ok(home)).unwrap().0;
    let step = scan.on_messages(&client, Err(Error::HttpStatus(500)), 0, &excluder);
    assert!(matches!(step, ScanStep::Fail(Error::HttpStatus(500))));
}

#[test]
fn a_scan_of_a_range_that_no_identifier_ends() {
    let client = DiscordClient::new(());
    for (end, early) in [(1_000_000_000, true), (10_000_000_000, false)] {
        let range = DateRange::between(at(0), at(end));
        let (scan, _) = fetch_channel_links(&client, Snowflake(1), range);
        let (scan, _) = scan.on_channel(&client, Ok(channel(Some(Snowflake(4))))).unwrap();
        let home = Guild { id: Snowflake(4), name: "home".to_string() };
        match scan.on_guild(&client, Ok(home)) {
            Err(Error::TimestampTooEarly) => assert!(early),
            Err(Error::TimestampTooLarge) => assert!(!early),
            other => panic!("{other:?}"),
        }
    }
}
