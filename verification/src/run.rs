//! A run over all channels: what it scans, and what it gives out.
use crate::config::{is_channel_entry, law_channel_list, Config};
use crate::datetime::{minutes_before, Bound, DateRange, UtcDateTime, NANOS_PER_SECOND};
use crate::decimal::decimal;
use crate::error::Error;
use crate::links::{build_excluder, Excluder};
use crate::snowflake::Snowflake;
use crate::text::{join, join_with, law_join, law_texts, split_on, texts};
use vstd::prelude::*;

verus! {

/// What a run is to scan.
pub struct Plan {
    pub range: DateRange,
    pub excluder: Excluder,
    /// One entry for each piece of the channel list.
    pub channels: Vec<Result<Snowflake, Error>>,
}

/// What a run gives out.
#[derive(Debug)]
pub enum Output {
    /// No channel has new links: there is nothing to write.
    Nothing,
    /// A text to print.
    Print(String),
    /// A text to append to a file.
    Append { path: String, text: String },
}

/// What a run has come to.
#[derive(Debug)]
pub struct RunReport {
    pub output: Output,
    /// The number of links in the output.
    pub count: usize,
    /// Why channels could not be scanned.
    pub failures: Vec<Error>,
}

/// The links of all channels that could be scanned, in the order in which the scans came in.
pub open spec fn found_urls(results: Seq<Result<Vec<String>, Error>>) -> Seq<String>
    decreases results.len(),
{
    if results.len() == 0 {
        Seq::empty()
    } else {
        let front = found_urls(results.drop_last());
        match results.last() {
            Ok(urls) => front + urls@,
            Err(_) => front,
        }
    }
}

/// Why channels could not be scanned, in the order in which the scans came in.
pub open spec fn failures(results: Seq<Result<Vec<String>, Error>>) -> Seq<Error>
    decreases results.len(),
{
    if results.len() == 0 {
        Seq::empty()
    } else {
        let front = failures(results.drop_last());
        match results.last() {
            Ok(_) => front,
            Err(e) => front.push(e),
        }
    }
}

/// The links, one to a line.
pub open spec fn lines(urls: Seq<String>) -> Seq<char> {
    join(texts(urls), "\n"@) + "\n"@
}

/// Plans a run at the time `now`.
pub fn plan(config: &Config, now: UtcDateTime) -> (res: Result<Plan, Error>)
    requires
        i64::MIN <= config.lookback_minutes * 60 <= i64::MAX,
    ensures
        ({
            &&& res matches Ok(plan)
            &&& plan.range.start matches Bound::Included(since)
            &&& since.offset() == now.offset()
            &&& since.nanos() + now.offset() * NANOS_PER_SECOND == minutes_before(
                now.nanos() + now.offset() * NANOS_PER_SECOND,
                config.lookback_minutes as int,
            )
            &&& plan.range.end == Bound::Excluded(now)
            &&& plan.channels@.len() == split_on(config.channel_ids@, ',').len()
            &&& forall|i: int|
                0 <= i < plan.channels@.len() ==> is_channel_entry(
                    split_on(config.channel_ids@, ',')[i],
                    #[trigger] plan.channels@[i],
                )
        }),
{
    let range = config.scan_range(now);
    let excluder = build_excluder()?;
    let channels = config.channels();
    Ok(Plan { range, excluder, channels })
}

/// What a run gives out, given what came of each channel's scan. A channel that could not be
/// scanned does not keep back the links of the others.
pub fn run_with_client(
    config: &Config,
    channel_results: Vec<Result<Vec<String>, Error>>,
) -> (report: RunReport)
    ensures
        report.failures@ == failures(channel_results@),
        report.count == found_urls(channel_results@).len(),
        if found_urls(channel_results@).len() == 0 {
            report.output is Nothing
        } else {
            match config.output_path {
                Some(file) => {
                    &&& report.output matches Output::Append { path, text }
                    &&& path@ == file@
                    &&& text@ == lines(found_urls(channel_results@))
                },
                None => report.output matches Output::Print(text) && text@ == lines(
                    found_urls(channel_results@),
                ),
            }
        },
{
    let ghost results = channel_results@;
    let mut urls: Vec<String> = Vec::new();
    let mut failed: Vec<Error> = Vec::new();
    for result in it: channel_results
        invariant
            it.seq() == results,
            urls@ == found_urls(results.take(it.index())),
            failed@ == failures(results.take(it.index())),
    {
        proof {
            let next = results.take(it.index() + 1);
            assert(next.drop_last() =~= results.take(it.index()));
            assert(next.last() == result);
        }
        match result {
            Ok(mut more) => urls.append(&mut more),
            Err(e) => failed.push(e),
        }
    }
    assert(results.take(results.len() as int) =~= results);
    let count = urls.len();
    if count == 0 {
        return RunReport { output: Output::Nothing, count, failures: failed };
    }
    let text = join_with(&urls, "\n").concat("\n");
    let output = match &config.output_path {
        Some(path) => Output::Append { path: path.clone(), text },
        None => Output::Print(text),
    };
    RunReport { output, count, failures: failed }
}

/// A run gives out the links of each group of channels independently of the others.
pub proof fn law_channels_are_independent(
    a: Seq<Result<Vec<String>, Error>>,
    b: Seq<Result<Vec<String>, Error>>,
)
    ensures
        found_urls(a + b) == found_urls(a) + found_urls(b),
        failures(a + b) == failures(a) + failures(b),
    decreases b.len(),
{
    if b.len() == 0 {
        assert(a + b =~= a);
        assert(found_urls(a) + found_urls(b) =~= found_urls(a));
        assert(failures(a) + failures(b) =~= failures(a));
    } else {
        law_channels_are_independent(a, b.drop_last());
        assert((a + b).drop_last() =~= a + b.drop_last());
        assert(found_urls(a + b) =~= found_urls(a) + found_urls(b));
        assert(failures(a + b) =~= failures(a) + failures(b));
    }
}

/// A channel that could not be scanned changes nothing about the links that are given out.
pub proof fn law_failures_are_skipped(
    a: Seq<Result<Vec<String>, Error>>,
    error: Error,
    b: Seq<Result<Vec<String>, Error>>,
)
    ensures
        found_urls(a.push(Err(error)) + b) == found_urls(a + b),
{
    law_channels_are_independent(a.push(Err(error)), b);
    law_channels_are_independent(a, b);
    assert(a.push(Err(error)).drop_last() =~= a);
}

/// Whatever the order in which the scans come in, the same links are given out, each as often.
pub proof fn law_order_of_scans(
    a: Seq<Result<Vec<String>, Error>>,
    b: Seq<Result<Vec<String>, Error>>,
)
    requires
        a.to_multiset() == b.to_multiset(),
    ensures
        found_urls(a).to_multiset() == found_urls(b).to_multiset(),
    decreases a.len(),
{
    a.to_multiset_ensures();
    b.to_multiset_ensures();
    if a.len() == 0 {
        assert(a.len() == b.len());
        assert(a =~= b);
    } else {
        let last = a.last();
        let front = a.drop_last();
        assert(a[a.len() - 1] == last);
        assert(a.contains(last));
        assert(a.to_multiset().count(last) > 0);
        assert(b.to_multiset().count(last) > 0);
        let k = choose|k: int| 0 <= k < b.len() && b[k] == last;
        let rest = b.remove(k);
        let single = seq![last];
        assert(front =~= a.remove(a.len() - 1));
        assert(front.to_multiset() =~= rest.to_multiset());
        law_order_of_scans(front, rest);
        assert(a =~= front + single);
        law_channels_are_independent(front, single);
        let b1 = b.take(k);
        let b2 = b.skip(k + 1);
        assert(rest =~= b1 + b2);
        assert(b =~= b1 + single + b2);
        law_channels_are_independent(b1, b2);
        law_channels_are_independent(b1 + single, b2);
        law_channels_are_independent(b1, single);
        let (u1, x, u2) = (found_urls(b1), found_urls(single), found_urls(b2));
        vstd::seq_lib::lemma_multiset_commutative(u1 + x, u2);
        vstd::seq_lib::lemma_multiset_commutative(u1, x);
        vstd::seq_lib::lemma_multiset_commutative(u1, u2);
        vstd::seq_lib::lemma_multiset_commutative(found_urls(front), x);
        assert(found_urls(a).to_multiset() =~= found_urls(b).to_multiset());
    }
}

/// The links are given out one to a line: each line is a link, as long as no link runs over
/// lines itself.
pub proof fn law_one_link_per_line(urls: Seq<String>)
    requires
        urls.len() > 0,
        forall|i: int| 0 <= i < urls.len() ==> !(#[trigger] texts(urls)[i]).contains('\n'),
    ensures
        split_on(lines(urls), '\n') == texts(urls).push(Seq::empty()),
{
    reveal_strlit("\n");
    assert("\n"@ =~= seq!['\n']);
    let text = join(texts(urls), "\n"@);
    crate::text::law_join_split(texts(urls), '\n');
    assert(lines(urls).drop_last() =~= text);
    assert(lines(urls).last() == '\n');
}

/// The links of a single channel are given out just as they were found, and the error of a
/// single channel is reported as it is.
pub proof fn law_single_channel(urls: Vec<String>, error: Error)
    ensures
        found_urls(Seq::empty()) == Seq::<String>::empty(),
        found_urls(seq![Ok(urls)]) == urls@,
        found_urls(seq![Err(error)]) == Seq::<String>::empty(),
        failures(Seq::empty()) == Seq::<Error>::empty(),
        failures(seq![Ok(urls)]) == Seq::<Error>::empty(),
        failures(seq![Err(error)]) == seq![error],
{
    reveal_with_fuel(found_urls, 2);
    reveal_with_fuel(failures, 2);
    let good: Seq<Result<Vec<String>, Error>> = seq![Ok(urls)];
    let bad: Seq<Result<Vec<String>, Error>> = seq![Err(error)];
    assert(good.drop_last() =~= Seq::empty());
    assert(bad.drop_last() =~= Seq::empty());
    assert(found_urls(good) =~= urls@);
    assert(failures(bad) =~= seq![error]);
}

/// Every channel's links are given out together, in their order, behind those of the channels
/// before it.
pub proof fn law_links_of_channel_in_place(
    before: Seq<Result<Vec<String>, Error>>,
    urls: Vec<String>,
    after: Seq<Result<Vec<String>, Error>>,
)
    ensures
        ({
            let all = found_urls(before.push(Ok(urls)) + after);
            let start = found_urls(before).len() as int;
            &&& all.len() == start + urls@.len() + found_urls(after).len()
            &&& all.subrange(start, start + urls@.len()) == urls@
        }),
{
    let single: Seq<Result<Vec<String>, Error>> = seq![Ok(urls)];
    assert(before.push(Ok(urls)) =~= before + single);
    law_channels_are_independent(before + single, after);
    law_channels_are_independent(before, single);
    reveal_with_fuel(found_urls, 2);
    assert(single.drop_last() =~= Seq::empty());
    assert(found_urls(single) =~= urls@);
    let all = found_urls(before.push(Ok(urls)) + after);
    let start = found_urls(before).len() as int;
    assert(all.subrange(start, start + urls@.len()) =~= urls@);
}

/// One more link is one more line at the end.
pub proof fn law_lines_grow(urls: Seq<String>, url: String)
    ensures
        lines(seq![url]) == url@.push('\n'),
        urls.len() > 0 ==> lines(urls.push(url)) == lines(urls) + url@.push('\n'),
{
    reveal_strlit("\n");
    assert("\n"@ =~= seq!['\n']);
    let sep = "\n"@;
    law_texts(seq![url]);
    assert(texts(seq![url]) =~= seq![url@]);
    assert(texts(urls.push(url)) =~= texts(urls).push(url@));
    law_join(texts(urls), url@, sep);
    assert(lines(seq![url]) =~= url@.push('\n'));
    if urls.len() > 0 {
        assert(lines(urls.push(url)) =~= lines(urls) + url@.push('\n'));
    }
}

/// A run over one channel that could be scanned gives out the channel's links, one to a line, to
/// the file if there is one, and nothing if there are no links.
pub proof fn law_run_over_one_channel(
    config: Config,
    urls: Vec<String>,
    results: Vec<Result<Vec<String>, Error>>,
    report: RunReport,
)
    requires
        results@ == seq![Ok::<Vec<String>, Error>(urls)],
        call_ensures(run_with_client, (&config, results), report),
    ensures
        report.count == urls@.len(),
        report.failures@.len() == 0,
        urls@.len() == 0 ==> report.output is Nothing,
        urls@.len() > 0 ==> match config.output_path {
            Some(file) => {
                &&& report.output matches Output::Append { path, text }
                &&& path@ == file@
                &&& text@ == join(texts(urls@), seq!['\n']).push('\n')
            },
            None => {
                &&& report.output matches Output::Print(text)
                &&& text@ == join(texts(urls@), seq!['\n']).push('\n')
            },
        },
{
    reveal_strlit("\n");
    assert("\n"@ =~= seq!['\n']);
    law_single_channel(urls, Error::InvalidLimit);
    assert(lines(urls@) =~= join(texts(urls@), seq!['\n']).push('\n'));
}

/// A run gives out as many links as its channels have together, and reports as many failures as
/// there are channels that could not be scanned.
pub proof fn law_run_counts(
    config: Config,
    a: Vec<Result<Vec<String>, Error>>,
    b: Vec<Result<Vec<String>, Error>>,
    both: Vec<Result<Vec<String>, Error>>,
    report_a: RunReport,
    report_b: RunReport,
    report: RunReport,
)
    requires
        both@ == a@ + b@,
        call_ensures(run_with_client, (&config, a), report_a),
        call_ensures(run_with_client, (&config, b), report_b),
        call_ensures(run_with_client, (&config, both), report),
    ensures
        report.count == report_a.count + report_b.count,
        report.failures@ == report_a.failures@ + report_b.failures@,
{
    law_channels_are_independent(a@, b@);
}

/// A run is planned for the channels of the list, and for the minutes that end right before now.
pub proof fn law_plan(config: Config, now: UtcDateTime, ids: Seq<Snowflake>, res: Result<Plan, Error>)
    requires
        ids.len() > 0,
        config.channel_ids@ == join(
            Seq::new(ids.len(), |i: int| decimal(ids[i].0 as nat)),
            seq![','],
        ),
        call_ensures(plan, (&config, now), res),
    ensures
        res matches Ok(plan) && {
            &&& plan.channels@.len() == ids.len()
            &&& forall|i: int|
                0 <= i < ids.len() ==> #[trigger] plan.channels@[i] == Ok::<_, Error>(ids[i])
            &&& plan.range.end == Bound::Excluded(now)
            &&& plan.range.start is Included
            &&& -377_705_116_800 * 1_000_000_000 <= now.nanos() + now.offset() * 1_000_000_000
                - config.lookback_minutes * 60_000_000_000 < 253_402_300_800 * 1_000_000_000
                ==> now.nanos() - plan.range.start->Included_0.nanos() == config.lookback_minutes
                * 60_000_000_000
        },
{
    if let Ok(plan) = res {
        law_channel_list(ids, plan.channels@);
    }
}

} // verus!
