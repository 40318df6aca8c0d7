use discord_links::{Duration, Error};

fn int_error() -> std::num::ParseIntError {
    "x".parse::<u8>().unwrap_err()
}

#[test]
fn test_error_variants() {
    let err = Error::HttpStatus(404);
    assert_eq!(err.to_string(), "HTTP status 404");

    let err = Error::RateLimited {
        retry_after: Duration::from_secs(5),
    };
    assert_eq!(err.to_string(), "rate limited, retry after 5s");
}

#[test]
fn fixed_messages() {
    assert_eq!(Error::InvalidLimit.to_string(), "limit must be non-zero");
    assert_eq!(Error::TimestampTooEarly.to_string(), "timestamp predates the Discord epoch");
    assert_eq!(Error::InvalidWorkerId.to_string(), "worker_id must be ≤ 1023");
    assert_eq!(Error::InvalidSequence.to_string(), "sequence must be ≤ 4095");
    assert_eq!(Error::TimestampTooLarge.to_string(), "timestamp too large for a Discord snowflake");
    assert_eq!(Error::MissingToken.to_string(), "DISCORD_TOKEN not set");
    assert_eq!(Error::MissingChannels.to_string(), "DISCORD_CHANNEL_IDS not set");
}

#[test]
fn messages_with_a_value() {
    let text = |s: &str| s.to_string();
    assert_eq!(Error::InvalidTimestamp(text("why")).to_string(), "invalid timestamp: why");
    assert_eq!(Error::InvalidMonthFormat(text("20")).to_string(), "expected yyyyMM, got 20");
    assert_eq!(Error::MonthOutOfRange(13).to_string(), "month 13 is out of range 1–12");
    assert_eq!(Error::MissingGuildId(text("5")).to_string(), "channel 5 has no guild_id");
    assert_eq!(Error::Other(text("why")).to_string(), "other error: why");
    assert_eq!(Error::Reqwest(text("why")).to_string(), "Reqwest error: why");
}

#[test]
fn messages_with_an_error() {
    let shown = int_error().to_string();
    assert_eq!(shown, "invalid digit found in string");
    assert_eq!(
        Error::InvalidSnowflake("12x".to_string(), int_error()).to_string(),
        format!("invalid snowflake '12x': {shown}")
    );
    assert_eq!(
        Error::InvalidLookback(int_error()).to_string(),
        format!("LOOKBACK_MINUTES must be an integer: {shown}")
    );
    assert_eq!(Error::from(int_error()).to_string(), shown);
    assert_eq!(Error::from(std::io::Error::other("disk full")).to_string(), "disk full");
    let json = serde_json::from_str::<u32>("x").unwrap_err();
    let expected = format!("JSON error: {json}");
    assert_eq!(Error::from(json).to_string(), expected);
    let range = time::Month::try_from(13u8).unwrap_err();
    assert_eq!(Error::from(range).to_string(), "month was not in range");
    let format = time::error::Format::InvalidComponent("year");
    let expected = format.to_string();
    assert_eq!(Error::from(format).to_string(), expected);
}

#[test]
fn spans_show_their_unit() {
    let shown = |secs, nanos| Error::RateLimited { retry_after: Duration::new(secs, nanos) }.to_string();
    assert_eq!(shown(0, 1_500_000), "rate limited, retry after 1.5ms");
    assert_eq!(shown(1, 500_000_000), "rate limited, retry after 1.5s");
    assert_eq!(shown(1, 2_000_000_001), "rate limited, retry after 3.000000001s");
    let span = Duration::new(1, 2_000_000_001);
    assert_eq!((span.as_secs(), span.subsec_nanos()), (3, 1));
}
