use discord_links::utils::{snowflake_to_unix_ms, snowflake_to_utc_datetime, unix_ms_to_snowflake, DISCORD_EPOCH};
use discord_links::{Error, Snowflake};

#[test]
fn test_invalid_snowflake_parse() {
    let res = "not-a-snowflake".parse::<Snowflake>();
    assert!(res.is_err());
}

#[test]
fn test_snowflake_roundtrip() {
    let s = "1197179023961378856";
    let sn: Snowflake = s.parse().unwrap();
    assert_eq!(sn.to_string(), s);
}

#[test]
fn identifiers_are_read_as_unsigned_numbers() {
    assert_eq!(Snowflake::from_str("0"), Ok(Snowflake(0)));
    assert_eq!(Snowflake::from_str("+7"), Ok(Snowflake(7)));
    assert_eq!(Snowflake::from_str("007"), Ok(Snowflake(7)));
    assert_eq!(Snowflake::from_str("18446744073709551615"), Ok(Snowflake(u64::MAX)));
    for text in ["", "+", "-1", " 1", "1 ", "1_000", "18446744073709551616", "１"] {
        assert!(Snowflake::from_str(text).is_err(), "{text}");
    }
}

#[test]
fn rejected_identifiers_carry_the_standard_error() {
    for text in ["", "x", "99999999999999999999"] {
        let ours = Snowflake::from_str(text).unwrap_err();
        let theirs = text.parse::<u64>().unwrap_err();
        assert_eq!(ours, theirs);
    }
}

#[test]
fn notation_has_no_leading_zeros() {
    assert_eq!(Snowflake(0).to_string(), "0");
    assert_eq!(Snowflake(10).to_string(), "10");
    assert_eq!(Snowflake(u64::MAX).to_string(), "18446744073709551615");
    for n in [1u64, 9, 99, 100, 101, 1_000_000_007, 1 << 63] {
        assert_eq!(Snowflake(n).to_string().parse::<Snowflake>(), Ok(Snowflake(n)));
    }
}

#[test]
fn identifiers_give_the_time_at_which_they_were_made() {
    // The example of Discord's documentation.
    let id = Snowflake(175928847299117063);
    assert_eq!(snowflake_to_unix_ms(id).unwrap(), 1_462_015_105_796);
    let t = snowflake_to_utc_datetime(id).unwrap();
    assert_eq!(t.unix_timestamp_nanos(), 1_462_015_105_000_000_000);
    assert_eq!(t.offset_seconds(), 0);
    assert_eq!(snowflake_to_unix_ms(Snowflake(0)).unwrap(), DISCORD_EPOCH);
    assert_eq!(snowflake_to_unix_ms(Snowflake(u64::MAX)).unwrap(), DISCORD_EPOCH + (1 << 42) - 1);
}

#[test]
fn parts_make_an_identifier() {
    let id = unix_ms_to_snowflake(1_462_015_105_796, 32, 7).unwrap();
    assert_eq!(id, Snowflake(175928847299117063));
    assert_eq!(unix_ms_to_snowflake(DISCORD_EPOCH, 0, 0).unwrap(), Snowflake(0));
    let last = unix_ms_to_snowflake(DISCORD_EPOCH + (1 << 42) - 1, 0x3FF, 0xFFF).unwrap();
    assert_eq!(last, Snowflake(u64::MAX));
    assert_eq!(snowflake_to_unix_ms(id).unwrap(), 1_462_015_105_796);
}

#[test]
fn parts_out_of_range_are_rejected_in_order() {
    let early = DISCORD_EPOCH - 1;
    let late = DISCORD_EPOCH + (1 << 42);
    assert!(matches!(unix_ms_to_snowflake(early, 0x400, 0x1000), Err(Error::TimestampTooEarly)));
    assert!(matches!(unix_ms_to_snowflake(late, 0x400, 0x1000), Err(Error::InvalidWorkerId)));
    assert!(matches!(unix_ms_to_snowflake(late, 0x3FF, 0x1000), Err(Error::InvalidSequence)));
    assert!(matches!(unix_ms_to_snowflake(late, 0x3FF, 0xFFF), Err(Error::TimestampTooLarge)));
    assert!(matches!(unix_ms_to_snowflake(i64::MIN, 0, 0), Err(Error::TimestampTooEarly)));
    assert!(matches!(unix_ms_to_snowflake(i64::MAX, 0, 0), Err(Error::TimestampTooLarge)));
}

#[test]
fn identifiers_follow_time() {
    let a = unix_ms_to_snowflake(DISCORD_EPOCH + 5, 0x3FF, 0xFFF).unwrap();
    let b = unix_ms_to_snowflake(DISCORD_EPOCH + 6, 0, 0).unwrap();
    assert!(a < b);
}
