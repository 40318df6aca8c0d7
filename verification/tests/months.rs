use discord_links::utils::parse_month;
use discord_links::{Date, Error};

#[test]
fn test_invalid_limit() {
    let res = parse_month("2023-13");
    assert!(matches!(res, Err(Error::MonthOutOfRange(13))));
}

#[test]
fn months_are_read_with_dashes_and_without() {
    let expected = Date { year: 2023, month: 7, day: 1 };
    for text in ["2023-07", "202307", "20-23-07", "-202307-", "2023--07"] {
        assert_eq!(parse_month(text).unwrap(), expected, "{text}");
    }
    assert_eq!(parse_month("9999-12").unwrap(), Date { year: 9999, month: 12, day: 1 });
    assert_eq!(parse_month("0000-01").unwrap(), Date { year: 0, month: 1, day: 1 });
    assert_eq!(parse_month("+123+4").unwrap(), Date { year: 123, month: 4, day: 1 });
}

#[test]
fn months_of_another_length_are_rejected() {
    for (text, shown) in [("", ""), ("2023-7", "20237"), ("2023-007", "2023007"), ("年年年", "年年年")] {
        match parse_month(text) {
            Err(Error::InvalidMonthFormat(got)) => assert_eq!(got, shown),
            other => panic!("{other:?}"),
        }
    }
}

#[test]
fn months_that_are_no_numbers_are_rejected() {
    match parse_month("20x3-ab") {
        Err(Error::ParseInt(e)) => assert_eq!(e, "20x3".parse::<i32>().unwrap_err()),
        other => panic!("{other:?}"),
    }
    match parse_month("2023-ab") {
        Err(Error::ParseInt(e)) => assert_eq!(e, "ab".parse::<u8>().unwrap_err()),
        other => panic!("{other:?}"),
    }
    match parse_month("ab12é") {
        Err(Error::ParseInt(e)) => assert_eq!(e, "ab12".parse::<i32>().unwrap_err()),
        other => panic!("{other:?}"),
    }
}

#[test]
fn months_are_numbered_from_one_to_twelve() {
    assert!(matches!(parse_month("2023-00"), Err(Error::MonthOutOfRange(0))));
    assert!(matches!(parse_month("2023-99"), Err(Error::MonthOutOfRange(99))));
    for month in 1..=12u8 {
        assert_eq!(parse_month(&format!("2024{month:02}")).unwrap().month, month);
    }
}
