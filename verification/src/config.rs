//! Settings.
use crate::datetime::{DateRange, UtcDateTime, NANOS_PER_SECOND};
use crate::decimal::{
    decimal, digits_value, i64_error_text, i64_value, int_error_displays, is_digit,
    lemma_decimal_read_back, lemma_decimal_value, parse_i64, u64_error_text, u64_value,
};
use crate::error::Error;
use crate::snowflake::Snowflake;
use crate::text::{join, law_join_split, split, split_on};
use std::num::ParseIntError;
use vstd::prelude::*;
use vstd::string::to_string_from_display_ensures;

verus! {

pub struct Config {
    pub discord_token: String,
    /// Identifiers of channels, separated by commas.
    pub channel_ids: String,
    pub lookback_minutes: i64,
    /// The file that links are appended to. Without it they are printed.
    pub output_path: Option<String>,
}

/// What the number of minutes to look back is read from.
pub open spec fn lookback_text(lookback_minutes: Option<String>) -> Seq<char> {
    match lookback_minutes {
        Some(text) => text@,
        None => "60"@,
    }
}

/// Whether `entry` is what a piece of the channel list stands for.
pub open spec fn is_channel_entry(piece: Seq<char>, entry: Result<Snowflake, Error>) -> bool {
    match entry {
        Ok(id) => u64_value(piece) == Some(id.0 as int),
        Err(e) => {
            &&& u64_value(piece) is None
            &&& e matches Error::InvalidSnowflake(text, why)
            &&& text@ == Seq::<char>::empty()
            &&& int_error_displays(why, u64_error_text(piece))
        },
    }
}

impl Config {
    /// The settings in the variables `DISCORD_TOKEN`, `DISCORD_CHANNEL_IDS`, `LOOKBACK_MINUTES`
    /// and `OUTPUT_PATH` of an environment, as far as each is set. By default the last hour is
    /// looked at.
    pub fn from_env(
        discord_token: Option<String>,
        channel_ids: Option<String>,
        lookback_minutes: Option<String>,
        output_path: Option<String>,
    ) -> (res: Result<Config, Error>)
        ensures
            if discord_token is None {
                res matches Err(Error::MissingToken)
            } else if channel_ids is None {
                res matches Err(Error::MissingChannels)
            } else {
                match i64_value(lookback_text(lookback_minutes)) {
                    None => res matches Err(Error::InvalidLookback(e)) && int_error_displays(
                        e,
                        i64_error_text(lookback_text(lookback_minutes)),
                    ),
                    Some(minutes) => {
                        &&& res matches Ok(config)
                        &&& config.discord_token == discord_token->0
                        &&& config.channel_ids == channel_ids->0
                        &&& config.lookback_minutes == minutes
                        &&& config.output_path == output_path
                    },
                }
            },
    {
        let discord_token = match discord_token {
            Some(token) => token,
            None => return Err(Error::MissingToken),
        };
        let channel_ids = match channel_ids {
            Some(ids) => ids,
            None => return Err(Error::MissingChannels),
        };
        let text = match lookback_minutes {
            Some(text) => text,
            None => "60".to_string(),
        };
        match parse_i64(text.as_str()) {
            Ok(lookback_minutes) => Ok(
                Config { discord_token, channel_ids, lookback_minutes, output_path },
            ),
            Err(e) => Err(Error::InvalidLookback(e)),
        }
    }

    /// The time to look at: from the number of minutes before `now`, up to and without `now`.
    pub fn scan_range(&self, now: UtcDateTime) -> (range: DateRange)
        requires
            i64::MIN <= self.lookback_minutes * 60 <= i64::MAX,
        ensures
            ({
                &&& range.start matches crate::datetime::Bound::Included(since)
                &&& since.offset() == now.offset()
                &&& since.nanos() + now.offset() * NANOS_PER_SECOND
                    == crate::datetime::minutes_before(
                    now.nanos() + now.offset() * NANOS_PER_SECOND,
                    self.lookback_minutes as int,
                )
            }),
            range.end == crate::datetime::Bound::Excluded(now),
    {
        let since = now.saturating_sub_minutes(self.lookback_minutes);
        DateRange::between(since, now)
    }

    /// The channels to scan, in the order of the list. What is no identifier is an error of its
    /// own.
    pub fn channels(&self) -> (entries: Vec<Result<Snowflake, Error>>)
        ensures
            entries@.len() == split_on(self.channel_ids@, ',').len(),
            forall|i: int|
                0 <= i < entries@.len() ==> is_channel_entry(
                    split_on(self.channel_ids@, ',')[i],
                    #[trigger] entries@[i],
                ),
    {
        let pieces = split(self.channel_ids.as_str(), ',');
        let ghost texts = split_on(self.channel_ids@, ',');
        let mut entries: Vec<Result<Snowflake, Error>> = Vec::new();
        for i in 0..pieces.len()
            invariant
                texts == crate::text::texts(pieces@),
                entries@.len() == i,
                forall|k: int|
                    0 <= k < entries@.len() ==> is_channel_entry(texts[k], #[trigger] entries@[k]),
        {
            let entry = match Snowflake::from_str(pieces[i].as_str()) {
                Ok(id) => Ok(id),
                Err(e) => Err(Error::InvalidSnowflake(String::new(), e)),
            };
            assert(is_channel_entry(texts[i as int], entry));
            entries.push(entry);
        }
        entries
    }
}

/// By default the last sixty minutes are looked at, and otherwise the number that is given.
pub proof fn law_lookback(given: String)
    ensures
        i64_value(lookback_text(None)) == Some(60int),
        lookback_text(Some(given)) == given@,
{
    reveal_strlit("60");
    reveal_with_fuel(digits_value, 3);
    let text = "60"@;
    assert(text.drop_last().drop_last() =~= Seq::<char>::empty());
    assert(forall|i: int| 0 <= i < text.len() ==> is_digit(#[trigger] text[i]));
}

/// A list of identifiers, each in decimal notation and separated by commas, stands for just
/// these channels.
pub proof fn law_channel_list(ids: Seq<Snowflake>, entries: Seq<Result<Snowflake, Error>>)
    requires
        ids.len() > 0,
        ({
            let pieces = split_on(
                join(Seq::new(ids.len(), |i: int| decimal(ids[i].0 as nat)), seq![',']),
                ',',
            );
            &&& entries.len() == pieces.len()
            &&& forall|i: int|
                0 <= i < entries.len() ==> is_channel_entry(pieces[i], #[trigger] entries[i])
        }),
    ensures
        entries.len() == ids.len(),
        forall|i: int| 0 <= i < ids.len() ==> #[trigger] entries[i] == Ok::<_, Error>(ids[i]),
{
    let texts = Seq::new(ids.len(), |i: int| decimal(ids[i].0 as nat));
    assert forall|i: int| 0 <= i < texts.len() implies !(#[trigger] texts[i]).contains(',') by {
        lemma_decimal_value(ids[i].0 as nat);
        assert(forall|k: int| 0 <= k < texts[i].len() ==> is_digit(#[trigger] texts[i][k]));
    }
    law_join_split(texts, ',');
    assert forall|i: int| 0 <= i < ids.len() implies #[trigger] entries[i] == Ok::<_, Error>(
        ids[i],
    ) by {
        lemma_decimal_read_back(ids[i].0);
        assert(is_channel_entry(texts[i], entries[i]));
    }
}

/// A piece of the channel list that is no number is an error that shows why, and does not name
/// the piece. A piece that is a number is its channel.
pub proof fn law_channel_entry(piece: Seq<char>, entry: Result<Snowflake, Error>, shown: String)
    requires
        is_channel_entry(piece, entry),
    ensures
        match entry {
            Ok(id) => u64_value(piece) == Some(id.0 as int),
            Err(error) => {
                &&& u64_value(piece) is None
                &&& error matches Error::InvalidSnowflake(id, why)
                &&& id@.len() == 0
                &&& to_string_from_display_ensures::<ParseIntError>(&why, shown) ==> shown@
                    == u64_error_text(piece)
            },
        },
{
}

/// The channels of a list are the identifiers that it was written from.
pub proof fn law_channels_are_listed(
    config: Config,
    ids: Seq<Snowflake>,
    entries: Vec<Result<Snowflake, Error>>,
)
    requires
        ids.len() > 0,
        config.channel_ids@ == join(
            Seq::new(ids.len(), |i: int| decimal(ids[i].0 as nat)),
            seq![','],
        ),
        call_ensures(Config::channels, (&config,), entries),
    ensures
        entries@.len() == ids.len(),
        forall|i: int| 0 <= i < ids.len() ==> #[trigger] entries@[i] == Ok::<_, Error>(ids[i]),
{
    law_channel_list(ids, entries@);
}

/// A token and a list of channels are enough for settings, which hold both as they are given and
/// look back an hour. A number of minutes is taken where it is given.
pub proof fn law_settings(
    token: String,
    ids: String,
    minutes: String,
    n: u64,
    output: Option<String>,
    by_default: Result<Config, Error>,
    given: Result<Config, Error>,
)
    requires
        n <= i64::MAX,
        minutes@ == decimal(n as nat),
        call_ensures(Config::from_env, (Some(token), Some(ids), None, output), by_default),
        call_ensures(Config::from_env, (Some(token), Some(ids), Some(minutes), output), given),
    ensures
        by_default matches Ok(config) && config == (Config {
            discord_token: token,
            channel_ids: ids,
            lookback_minutes: 60,
            output_path: output,
        }),
        given matches Ok(config) && config == (Config {
            discord_token: token,
            channel_ids: ids,
            lookback_minutes: n as i64,
            output_path: output,
        }),
{
    law_lookback(minutes);
    lemma_decimal_value(n as nat);
    assert(is_digit(decimal(n as nat)[0]));
}

/// Settings lack a token or a list of channels, whatever else is given. The token is missed
/// first.
pub proof fn law_missing_settings(
    token: Option<String>,
    ids: Option<String>,
    minutes: Option<String>,
    output: Option<String>,
    res: Result<Config, Error>,
)
    requires
        call_ensures(Config::from_env, (token, ids, minutes, output), res),
    ensures
        token is None <==> res matches Err(Error::MissingToken),
        token is Some && ids is None <==> res matches Err(Error::MissingChannels),
{
}

/// The range to look at is as long as the minutes to look back, and ends right before now.
pub proof fn law_scan_range(config: Config, now: UtcDateTime, range: DateRange)
    requires
        call_ensures(Config::scan_range, (&config, now), range),
        -377_705_116_800 * 1_000_000_000 <= now.nanos() + now.offset() * 1_000_000_000
            - config.lookback_minutes * 60_000_000_000 < 253_402_300_800 * 1_000_000_000,
    ensures
        range.start matches crate::datetime::Bound::Included(since) && now.nanos() - since.nanos()
            == config.lookback_minutes * 60_000_000_000,
        range.end == crate::datetime::Bound::Excluded(now),
{
}

} // verus!
