use discord_links::run::{plan, run_with_client, Output};
use discord_links::text::{join_with, remove_char, split};
use discord_links::{Bound, Config, Error, Snowflake, UtcDateTime};

fn text(s: &str) -> Option<String> {
    Some(s.to_string())
}

fn config(channel_ids: &str, output_path: Option<String>) -> Config {
    Config::from_env(text("token"), text(channel_ids), None, output_path).unwrap()
}

fn strings(texts: &[&str]) -> Vec<String> {
    texts.iter().map(|t| t.to_string()).collect()
}

#[test]
fn test_config_missing_token() {
    let res = Config::from_env(None, text("1"), text("5"), None);
    assert!(matches!(res, Err(Error::MissingToken)));
}

#[test]
fn settings_are_taken_from_the_environment() {
    let config = Config::from_env(text("t"), text("1,2"), text("-15"), text("out.txt")).unwrap();
    assert_eq!(config.discord_token, "t");
    assert_eq!(config.channel_ids, "1,2");
    assert_eq!(config.lookback_minutes, -15);
    assert_eq!(config.output_path.as_deref(), Some("out.txt"));
    let config = Config::from_env(text("t"), text(""), None, None).unwrap();
    assert_eq!(config.lookback_minutes, 60);
    assert_eq!(config.output_path, None);
}

#[test]
fn settings_that_are_wrong() {
    assert!(matches!(Config::from_env(None, None, text("x"), None), Err(Error::MissingToken)));
    assert!(matches!(Config::from_env(text("t"), None, text("x"), None), Err(Error::MissingChannels)));
    for lookback in ["", "x", "1.5", "9223372036854775808", " 5"] {
        match Config::from_env(text("t"), text("1"), text(lookback), None) {
            Err(Error::InvalidLookback(e)) => assert_eq!(e, lookback.parse::<i64>().unwrap_err()),
            _ => panic!("{lookback}"),
        }
    }
}

#[test]
fn a_run_is_planned() {
    let now = UtcDateTime::from_unix_timestamp(1_700_000_000).unwrap();
    let plan = plan(&config("1,x,,3", None), now).unwrap();
    match plan.range.start {
        Bound::Included(t) => assert_eq!(t.unix_timestamp(), 1_700_000_000 - 3600),
        other => panic!("{other:?}"),
    }
    match plan.range.end {
        Bound::Excluded(t) => assert_eq!(t.unix_timestamp(), 1_700_000_000),
        other => panic!("{other:?}"),
    }
    assert!(plan.excluder.is_match("https://cdn.x"));
    assert_eq!(plan.channels.len(), 4);
    assert!(matches!(plan.channels[0], Ok(Snowflake(1))));
    match &plan.channels[1] {
        Err(Error::InvalidSnowflake(id, e)) => {
            assert_eq!(id, "");
            assert_eq!(*e, "x".parse::<u64>().unwrap_err());
        }
        other => panic!("{other:?}"),
    }
    assert!(matches!(plan.channels[2], Err(Error::InvalidSnowflake(_, _))));
    assert!(matches!(plan.channels[3], Ok(Snowflake(3))));
}

#[test]
fn nothing_is_written_without_links() {
    let report = run_with_client(&config("1", None), vec![Ok(Vec::new()), Err(Error::HttpStatus(500))]);
    assert!(matches!(report.output, Output::Nothing));
    assert_eq!(report.count, 0);
    assert!(matches!(report.failures[..], [Error::HttpStatus(500)]));
    let report = run_with_client(&config("1", text("f")), Vec::new());
    assert!(matches!(report.output, Output::Nothing));
}

#[test]
fn links_are_given_out_one_to_a_line() {
    let results = || {
        vec![
            Ok(strings(&["https://b", "https://a"])),
            Err(Error::HttpStatus(404)),
            Ok(Vec::new()),
            Ok(strings(&["https://c"])),
            Err(Error::InvalidLimit),
        ]
    };
    let report = run_with_client(&config("1", None), results());
    match report.output {
        Output::Print(text) => assert_eq!(text, "https://b\nhttps://a\nhttps://c\n"),
        other => panic!("{other:?}"),
    }
    assert_eq!(report.count, 3);
    assert!(matches!(report.failures[..], [Error::HttpStatus(404), Error::InvalidLimit]));
    let report = run_with_client(&config("1", text("out.txt")), results());
    match report.output {
        Output::Append { path, text } => {
            assert_eq!(path, "out.txt");
            assert_eq!(text, "https://b\nhttps://a\nhttps://c\n");
        }
        other => panic!("{other:?}"),
    }
}

#[test]
fn the_order_of_scans_does_not_change_which_links_are_given_out() {
    let a = || Ok(strings(&["https://b", "https://a"]));
    let b = || Ok(strings(&["https://c"]));
    let failed = || Err(Error::HttpStatus(404));
    let sorted = |results| match run_with_client(&config("1", None), results).output {
        Output::Print(text) => {
            let mut lines = split(&text, '\n');
            lines.sort();
            lines
        }
        other => panic!("{other:?}"),
    };
    let expected = strings(&["", "https://a", "https://b", "https://c"]);
    assert_eq!(sorted(vec![a(), b(), failed()]), expected);
    assert_eq!(sorted(vec![failed(), b(), a()]), expected);
}

#[test]
fn text_is_split_and_joined() {
    for s in ["", ",", "a", "a,b", ",a,,b,", "日,本"] {
        let pieces = split(s, ',');
        assert_eq!(pieces, s.split(',').collect::<Vec<_>>());
        assert_eq!(join_with(&pieces, ","), s);
    }
    assert_eq!(join_with(&Vec::new(), ","), "");
    assert_eq!(remove_char("-a-日--b-", '-'), "a日b");
    assert_eq!(remove_char("", '-'), "");
}
