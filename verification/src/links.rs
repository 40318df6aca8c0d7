//! Links in messages, and which of them are of no interest.
use crate::error::Error;
use crate::model::{Attachment, Embed, Message};
use crate::snowflake::Snowflake;
use crate::text::texts;
use aho_corasick::{AhoCorasick, BuildError};
use vstd::prelude::*;

verus! {

/// `c` in lower case, if it is an ASCII letter.
pub open spec fn lower(c: char) -> char {
    if 'A' <= c <= 'Z' {
        (c as u32 + 32) as char
    } else {
        c
    }
}

pub open spec fn same_char(a: char, b: char, ignore_case: bool) -> bool {
    a == b || (ignore_case && lower(a) == lower(b))
}

/// Whether `pattern` stands in `text` at a position.
pub open spec fn occurs_at(text: Seq<char>, pattern: Seq<char>, at: int, ignore_case: bool) -> bool {
    &&& 0 <= at
    &&& at + pattern.len() <= text.len()
    &&& forall|k: int|
        0 <= k < pattern.len() ==> same_char(text[at + k], #[trigger] pattern[k], ignore_case)
}

/// Whether one of the patterns stands somewhere in `text`.
pub open spec fn has_match(text: Seq<char>, patterns: Seq<Seq<char>>, ignore_case: bool) -> bool {
    exists|p: int, at: int|
        0 <= p < patterns.len() && #[trigger] occurs_at(text, patterns[p], at, ignore_case)
}

/// An automaton of the `aho_corasick` crate, which searches for a fixed list of patterns.
#[verifier::external_type_specification]
#[verifier::external_body]
pub struct ExAhoCorasick(aho_corasick::AhoCorasick);

/// The patterns that an automaton was built from.
pub uninterp spec fn automaton_patterns(automaton: AhoCorasick) -> Seq<Seq<char>>;

/// Whether an automaton was built to take an ASCII letter for the same in both cases.
pub uninterp spec fn automaton_ignores_case(automaton: AhoCorasick) -> bool;

/// Whether an automaton was built to search at every position of a text.
pub uninterp spec fn automaton_is_unanchored(automaton: AhoCorasick) -> bool;

/// `AhoCorasickBuilder::build`, with the case setting of
/// `AhoCorasickBuilder::ascii_case_insensitive` and everything else by default: an automaton
/// made from the patterns. It fails only where the number or the length of the patterns, or
/// the size of a table made from them, exceeds about two billion, so that it succeeds on a few
/// short patterns. Of larger ones nothing is said.
#[verifier::external_body]
fn build_automaton(patterns: &Vec<&str>, ignore_case: bool) -> (res: Result<
    AhoCorasick,
    BuildError,
>)
    ensures
        res matches Ok(automaton) ==> {
            &&& automaton_patterns(automaton) == patterns@.map_values(|p: &str| p@)
            &&& automaton_ignores_case(automaton) == ignore_case
            &&& automaton_is_unanchored(automaton)
        },
        patterns@.len() <= 100 && (forall|i: int|
            0 <= i < patterns@.len() ==> (#[trigger] patterns@[i])@.len() <= 100) ==> res is Ok,
{
    AhoCorasick::builder().ascii_case_insensitive(ignore_case).build(patterns)
}

/// `AhoCorasick::is_match`: whether one of the automaton's patterns stands somewhere in the
/// text.
#[verifier::external_body]
fn automaton_matches(automaton: &AhoCorasick, text: &str) -> (found: bool)
    requires
        automaton_is_unanchored(*automaton),
    ensures
        found == has_match(
            text@,
            automaton_patterns(*automaton),
            automaton_ignores_case(*automaton),
        ),
{
    automaton.is_match(text)
}

/// The links that `linkify::LinkFinder` finds in a text, in their order.
pub uninterp spec fn found_links(text: Seq<char>) -> Seq<Seq<char>>;

/// `linkify::LinkFinder::links`, of a finder with the default settings of
/// `linkify::LinkFinder::new`: the links in a text, a function of the text alone.
#[verifier::external_body]
pub(crate) fn find_links(text: &str) -> (links: Vec<String>)
    ensures
        texts(links@) == found_links(text@),
{
    linkify::LinkFinder::new().links(text).map(|l| l.as_str().to_string()).collect()
}

/// What stands in a link that is of no interest.
pub open spec fn excluded_patterns() -> Seq<Seq<char>> {
    seq!["cdn."@, "tenor."@, "redgifs."@, "discordapp."@, "redd.it"@, "media.tumblr."@]
}

/// Whether a link is of no interest.
pub open spec fn is_excluded(url: Seq<char>) -> bool {
    has_match(url, excluded_patterns(), true)
}

/// Recognises the links that are of no interest.
#[derive(Debug)]
pub struct Excluder {
    automaton: AhoCorasick,
}

impl Excluder {
    #[verifier::type_invariant]
    spec fn wf(self) -> bool {
        &&& automaton_is_unanchored(self.automaton)
        &&& automaton_patterns(self.automaton) == excluded_patterns()
        &&& automaton_ignores_case(self.automaton)
    }

    /// Whether a link is of no interest.
    pub fn is_match(&self, url: &str) -> (excluded: bool)
        ensures
            excluded == is_excluded(url@),
    {
        proof {
            use_type_invariant(self);
        }
        automaton_matches(&self.automaton, url)
    }
}

/// The excluder. Its few short patterns are always within the limits of the automaton.
pub fn build_excluder() -> (res: Result<Excluder, Error>)
    ensures
        res is Ok,
{
    let patterns: Vec<&str> = vec![
        "cdn.",
        "tenor.",
        "redgifs.",
        "discordapp.",
        "redd.it",
        "media.tumblr.",
    ];
    proof {
        reveal_strlit("cdn.");
        reveal_strlit("tenor.");
        reveal_strlit("redgifs.");
        reveal_strlit("discordapp.");
        reveal_strlit("redd.it");
        reveal_strlit("media.tumblr.");
    }
    match build_automaton(&patterns, true) {
        Ok(automaton) => {
            assert(patterns@.map_values(|p: &str| p@) =~= excluded_patterns());
            Ok(Excluder { automaton })
        },
        Err(e) => Err(Error::AhoCorasick(e)),
    }
}

/// The addresses of the attachments.
pub open spec fn attachment_urls(attachments: Seq<Attachment>) -> Seq<Seq<char>> {
    attachments.map_values(|a: Attachment| a.url@)
}

/// The addresses of those embeds that have one.
pub open spec fn embed_urls(embeds: Seq<Embed>) -> Seq<Seq<char>>
    decreases embeds.len(),
{
    if embeds.len() == 0 {
        Seq::empty()
    } else {
        let front = embed_urls(embeds.drop_last());
        match embeds.last().url {
            Some(url) => front.push(url@),
            None => front,
        }
    }
}

/// The links of a message: those in its content, then its attachments, then its embeds.
pub open spec fn links_of(in_content: Seq<Seq<char>>, message: Message) -> Seq<Seq<char>> {
    in_content + attachment_urls(message.attachments@) + embed_urls(message.embeds@)
}

/// The links of messages, one message after the other.
pub open spec fn links_of_all(messages: Seq<Message>) -> Seq<Seq<char>>
    decreases messages.len(),
{
    if messages.len() == 0 {
        Seq::empty()
    } else {
        links_of_all(messages.drop_last()) + links_of(
            found_links(messages.last().content@),
            messages.last(),
        )
    }
}

/// Those links that are of interest.
pub open spec fn kept_links(links: Seq<Seq<char>>) -> Seq<Seq<char>> {
    links.filter(|url: Seq<char>| !is_excluded(url))
}

/// The links of a message, given those in its content.
pub fn message_links(in_content: Vec<String>, message: &Message) -> (links: Vec<String>)
    ensures
        texts(links@) == links_of(texts(in_content@), *message),
        forall|i: int|
            0 <= i < message.attachments@.len() ==> links@[in_content@.len() + i]@ == (
            #[trigger] message.attachments@[i]).url@,
{
    let mut links = in_content;
    let ghost content = texts(in_content@);
    for i in 0..message.attachments.len()
        invariant
            texts(links@) == content + attachment_urls(message.attachments@.take(i as int)),
    {
        let ghost before = texts(links@);
        links.push(message.attachments[i].url.clone());
        proof {
            let next = message.attachments@.take(i + 1);
            assert(attachment_urls(next) =~= attachment_urls(
                message.attachments@.take(i as int),
            ).push(message.attachments@[i as int].url@));
            assert(texts(links@) =~= before.push(message.attachments@[i as int].url@));
        }
    }
    let ghost start = texts(links@);
    assert(message.attachments@.take(message.attachments@.len() as int) =~= message.attachments@);
    for i in 0..message.embeds.len()
        invariant
            texts(links@) == start + embed_urls(message.embeds@.take(i as int)),
    {
        let ghost before = texts(links@);
        proof {
            let next = message.embeds@.take(i + 1);
            assert(next.drop_last() =~= message.embeds@.take(i as int));
            assert(next.last() == message.embeds@[i as int]);
        }
        if let Some(url) = &message.embeds[i].url {
            links.push(url.clone());
            assert(texts(links@) =~= before.push(url@));
        }
    }
    assert(message.embeds@.take(message.embeds@.len() as int) =~= message.embeds@);
    proof {
        law_links_of_message(content, *message);
        assert forall|i: int| 0 <= i < message.attachments@.len() implies links@[content.len()
            + i]@ == (#[trigger] message.attachments@[i]).url@ by {
            assert(texts(links@)[content.len() + i] == links@[content.len() + i]@);
        }
    }
    links
}

/// The links of messages, one message after the other.
pub fn collect_links(messages: &Vec<Message>) -> (links: Vec<String>)
    ensures
        texts(links@) == links_of_all(messages@),
{
    let mut links: Vec<String> = Vec::new();
    for i in 0..messages.len()
        invariant
            texts(links@) == links_of_all(messages@.take(i as int)),
    {
        let ghost before = texts(links@);
        let in_content = find_links(messages[i].content.as_str());
        let mut more = message_links(in_content, &messages[i]);
        let ghost added = texts(more@);
        links.append(&mut more);
        proof {
            let next = messages@.take(i + 1);
            assert(next.drop_last() =~= messages@.take(i as int));
            assert(next.last() == messages@[i as int]);
            assert(texts(links@) =~= before + added);
        }
    }
    assert(messages@.take(messages@.len() as int) =~= messages@);
    links
}

/// Those links that are of interest, and the number of the others.
pub fn keep_links(links: Vec<String>, excluder: &Excluder) -> (res: (Vec<String>, usize))
    ensures
        texts(res.0@) == kept_links(texts(links@)),
        res.0@.len() + res.1 == links@.len(),
{
    let ghost all = texts(links@);
    let mut kept: Vec<String> = Vec::new();
    let mut excluded: usize = 0;
    proof {
        reveal(Seq::filter);
        assert(kept_links(all.take(0)) =~= texts(kept@));
    }
    for i in 0..links.len()
        invariant
            all == texts(links@),
            texts(kept@) == kept_links(all.take(i as int)),
            kept@.len() + excluded == i,
    {
        let ghost before = texts(kept@);
        proof {
            reveal(Seq::filter);
            let next = all.take(i + 1);
            assert(next.drop_last() =~= all.take(i as int));
            assert(next.last() == links@[i as int]@);
        }
        if excluder.is_match(links[i].as_str()) {
            excluded = excluded + 1;
        } else {
            kept.push(links[i].clone());
            assert(texts(kept@) =~= before.push(links@[i as int]@));
        }
    }
    assert(all.take(all.len() as int) =~= all);
    (kept, excluded)
}

/// Notes the guild in every message. Nothing else about them changes.
pub fn assign_guild(messages: &mut Vec<Message>, guild_id: Snowflake)
    ensures
        final(messages)@ == old(messages)@.map_values(
            |m: Message| (Message { guild_id: Some(guild_id), ..m }),
        ),
{
    let count = messages.len();
    for i in 0..count
        invariant
            count == messages@.len(),
            messages@.len() == old(messages)@.len(),
            forall|k: int|
                #![trigger messages@[k]]
                0 <= k < messages@.len() ==> messages@[k] == (if k < i {
                    Message { guild_id: Some(guild_id), ..old(messages)@[k] }
                } else {
                    old(messages)@[k]
                }),
    {
        messages[i].guild_id = Some(guild_id);
    }
    assert(messages@ =~= old(messages)@.map_values(
        |m: Message| (Message { guild_id: Some(guild_id), ..m }),
    ));
}

/// What is kept is of interest and was among the links, and no link of interest is lost.
pub proof fn law_kept_links(links: Seq<Seq<char>>)
    ensures
        forall|i: int|
            #![trigger kept_links(links)[i]]
            0 <= i < kept_links(links).len() ==> !is_excluded(kept_links(links)[i])
                && links.contains(kept_links(links)[i]),
        forall|url: Seq<char>|
            links.contains(url) && !is_excluded(url) ==> #[trigger] kept_links(links).contains(url),
    decreases links.len(),
{
    reveal(Seq::filter);
    if links.len() > 0 {
        let front = links.drop_last();
        let last = links.last();
        law_kept_links(front);
        let kept = kept_links(links);
        assert forall|i: int|
            #![trigger kept_links(links)[i]]
            0 <= i < kept.len() implies !is_excluded(kept[i]) && links.contains(kept[i]) by {
            if i < kept_links(front).len() {
                assert(kept[i] == kept_links(front)[i]);
                let k = choose|k: int| 0 <= k < front.len() && front[k] == kept[i];
                assert(links[k] == kept[i]);
            } else {
                assert(links[links.len() - 1] == kept[i]);
            }
        }
        assert forall|url: Seq<char>|
            links.contains(url) && !is_excluded(url) implies #[trigger] kept_links(links).contains(
            url,
        ) by {
            let k = choose|k: int| 0 <= k < links.len() && links[k] == url;
            if k < front.len() {
                assert(front[k] == url);
                assert(kept_links(front).contains(url));
                let j = choose|j: int| 0 <= j < kept_links(front).len() && kept_links(front)[j] == url;
                assert(kept[j] == url);
            } else {
                assert(kept[kept.len() - 1] == url);
            }
        }
    }
}

/// Whether a link is of interest does not depend on the case of its ASCII letters.
pub proof fn law_exclusion_ignores_case(a: Seq<char>, b: Seq<char>)
    requires
        a.len() == b.len(),
        forall|i: int| #![trigger a[i]] #![trigger b[i]] 0 <= i < a.len() ==> lower(a[i]) == lower(b[i]),
    ensures
        is_excluded(a) == is_excluded(b),
{
    if is_excluded(a) {
        lemma_excluded_in_other_case(a, b);
    }
    if is_excluded(b) {
        lemma_excluded_in_other_case(b, a);
    }
}

proof fn lemma_excluded_in_other_case(a: Seq<char>, b: Seq<char>)
    requires
        a.len() == b.len(),
        forall|i: int| #![trigger a[i]] #![trigger b[i]] 0 <= i < a.len() ==> lower(a[i]) == lower(b[i]),
        is_excluded(a),
    ensures
        is_excluded(b),
{
    let (p, at) = choose|p: int, at: int|
        0 <= p < excluded_patterns().len() && #[trigger] occurs_at(
            a,
            excluded_patterns()[p],
            at,
            true,
        );
    let pattern = excluded_patterns()[p];
    assert forall|k: int| 0 <= k < pattern.len() implies same_char(
        b[at + k],
        #[trigger] pattern[k],
        true,
    ) by {
        assert(same_char(a[at + k], pattern[k], true));
        assert(lower(a[at + k]) == lower(b[at + k]));
    }
    assert(occurs_at(b, pattern, at, true));
}

/// A pattern in lower case stands at a position if and only if the text in lower case goes on
/// with it there.
proof fn lemma_occurs_in_lower_case(text: Seq<char>, low: Seq<char>, pattern: Seq<char>, at: int)
    requires
        low.len() == text.len(),
        forall|i: int| 0 <= i < text.len() ==> #[trigger] low[i] == lower(text[i]),
        forall|k: int| 0 <= k < pattern.len() ==> lower(#[trigger] pattern[k]) == pattern[k],
        0 <= at <= text.len(),
    ensures
        occurs_at(text, pattern, at, true) <==> pattern.is_prefix_of(low.skip(at)),
{
    let rest = low.skip(at);
    if occurs_at(text, pattern, at, true) {
        assert forall|k: int| 0 <= k < pattern.len() implies #[trigger] pattern[k] == rest[k] by {
            assert(same_char(text[at + k], pattern[k], true));
            assert(low[at + k] == lower(text[at + k]));
        }
        assert(pattern =~= rest.subrange(0, pattern.len() as int));
    }
    if pattern.is_prefix_of(rest) {
        assert forall|k: int| 0 <= k < pattern.len() implies same_char(
            text[at + k],
            #[trigger] pattern[k],
            true,
        ) by {
            assert(pattern[k] == rest.subrange(0, pattern.len() as int)[k]);
            assert(rest[k] == low[at + k]);
        }
    }
}

/// A link is of no interest if and only if, with its ASCII letters in lower case, one of six
/// texts stands somewhere in it.
pub proof fn law_excluded_links(url: Seq<char>)
    ensures
        ({
            let low = url.map_values(
                |c: char| if 'A' <= c <= 'Z' { (c as u32 + 32) as char } else { c },
            );
            is_excluded(url) <==> exists|at: int|
                0 <= at <= low.len() && {
                    let rest = #[trigger] low.skip(at);
                    ||| "cdn."@.is_prefix_of(rest)
                    ||| "tenor."@.is_prefix_of(rest)
                    ||| "redgifs."@.is_prefix_of(rest)
                    ||| "discordapp."@.is_prefix_of(rest)
                    ||| "redd.it"@.is_prefix_of(rest)
                    ||| "media.tumblr."@.is_prefix_of(rest)
                }
        }),
{
    reveal_strlit("cdn.");
    reveal_strlit("tenor.");
    reveal_strlit("redgifs.");
    reveal_strlit("discordapp.");
    reveal_strlit("redd.it");
    reveal_strlit("media.tumblr.");
    let low = url.map_values(|c: char| if 'A' <= c <= 'Z' { (c as u32 + 32) as char } else { c });
    let patterns = excluded_patterns();
    assert forall|p: int, at: int| 0 <= p < patterns.len() && 0 <= at <= url.len() implies (
    #[trigger] occurs_at(url, patterns[p], at, true) <==> patterns[p].is_prefix_of(
        low.skip(at),
    )) by {
        lemma_occurs_in_lower_case(url, low, patterns[p], at);
    }
    if is_excluded(url) {
        let (p, at) = choose|p: int, at: int|
            0 <= p < patterns.len() && #[trigger] occurs_at(url, patterns[p], at, true);
        assert(patterns[p].is_prefix_of(low.skip(at)));
    }
    if exists|at: int|
        0 <= at <= low.len() && {
            let rest = #[trigger] low.skip(at);
            ||| "cdn."@.is_prefix_of(rest)
            ||| "tenor."@.is_prefix_of(rest)
            ||| "redgifs."@.is_prefix_of(rest)
            ||| "discordapp."@.is_prefix_of(rest)
            ||| "redd.it"@.is_prefix_of(rest)
            ||| "media.tumblr."@.is_prefix_of(rest)
        } {
        let at = choose|at: int|
            0 <= at <= low.len() && {
                let rest = #[trigger] low.skip(at);
                ||| "cdn."@.is_prefix_of(rest)
                ||| "tenor."@.is_prefix_of(rest)
                ||| "redgifs."@.is_prefix_of(rest)
                ||| "discordapp."@.is_prefix_of(rest)
                ||| "redd.it"@.is_prefix_of(rest)
                ||| "media.tumblr."@.is_prefix_of(rest)
            };
        let p: int = if "cdn."@.is_prefix_of(low.skip(at)) {
            0
        } else if "tenor."@.is_prefix_of(low.skip(at)) {
            1
        } else if "redgifs."@.is_prefix_of(low.skip(at)) {
            2
        } else if "discordapp."@.is_prefix_of(low.skip(at)) {
            3
        } else if "redd.it"@.is_prefix_of(low.skip(at)) {
            4
        } else {
            5
        };
        assert(patterns[p].is_prefix_of(low.skip(at)));
        assert(occurs_at(url, patterns[p], at, true));
    }
}

/// Whatever stands around one of the six texts, in whatever case its letters are, the link is
/// of no interest.
pub proof fn law_excluded_wherever_it_stands(before: Seq<char>, piece: Seq<char>, after: Seq<char>)
    requires
        ({
            let low = piece.map_values(
                |c: char| if 'A' <= c <= 'Z' { (c as u32 + 32) as char } else { c },
            );
            ||| low == "cdn."@
            ||| low == "tenor."@
            ||| low == "redgifs."@
            ||| low == "discordapp."@
            ||| low == "redd.it"@
            ||| low == "media.tumblr."@
        }),
    ensures
        is_excluded(before + piece + after),
{
    let url = before + piece + after;
    let part = piece.map_values(
        |c: char| if 'A' <= c <= 'Z' { (c as u32 + 32) as char } else { c },
    );
    let low = url.map_values(|c: char| if 'A' <= c <= 'Z' { (c as u32 + 32) as char } else { c });
    law_excluded_links(url);
    let at = before.len() as int;
    assert(part =~= low.skip(at).subrange(0, part.len() as int));
    assert(part.is_prefix_of(low.skip(at)));
}

/// The links of a message are as many as the links in its content, its attachments and those of
/// its embeds that have an address together. They come in this order, each attachment and each
/// embed with its address, whatever else is said of it.
pub proof fn law_links_of_message(in_content: Seq<Seq<char>>, message: Message)
    ensures
        ({
            let links = links_of(in_content, message);
            let first = in_content.len() as int;
            let second = first + message.attachments@.len();
            let shown = message.embeds@.filter(|e: Embed| e.url is Some);
            &&& links.len() == second + shown.len()
            &&& links.take(first) == in_content
            &&& forall|i: int|
                0 <= i < message.attachments@.len() ==> links[first + i] == (
                #[trigger] message.attachments@[i]).url@
            &&& forall|i: int|
                0 <= i < shown.len() ==> links[second + i] == (#[trigger] shown[i]).url->0@
        }),
{
    let links = links_of(in_content, message);
    lemma_embed_urls(message.embeds@);
    assert(links.take(in_content.len() as int) =~= in_content);
}

proof fn lemma_embed_urls(embeds: Seq<Embed>)
    ensures
        ({
            let shown = embeds.filter(|e: Embed| e.url is Some);
            &&& embed_urls(embeds).len() == shown.len()
            &&& forall|i: int|
                0 <= i < shown.len() ==> embed_urls(embeds)[i] == (#[trigger] shown[i]).url->0@
        }),
    decreases embeds.len(),
{
    reveal(Seq::filter);
    if embeds.len() > 0 {
        lemma_embed_urls(embeds.drop_last());
    }
}

/// Messages have their links independently of each other, and a single one has its own.
pub proof fn law_links_of_messages(a: Seq<Message>, b: Seq<Message>, message: Message)
    ensures
        links_of_all(Seq::empty()) == Seq::<Seq<char>>::empty(),
        links_of_all(seq![message]) == links_of(found_links(message.content@), message),
        links_of_all(a + b) == links_of_all(a) + links_of_all(b),
    decreases b.len(),
{
    reveal_with_fuel(links_of_all, 2);
    assert(seq![message].drop_last() =~= Seq::empty());
    assert(links_of_all(seq![message]) =~= links_of(found_links(message.content@), message));
    if b.len() == 0 {
        assert(a + b =~= a);
        assert(links_of_all(a) + links_of_all(b) =~= links_of_all(a));
    } else {
        law_links_of_messages(a, b.drop_last(), message);
        assert((a + b).drop_last() =~= a + b.drop_last());
        assert(links_of_all(a + b) =~= links_of_all(a) + links_of_all(b));
    }
}

/// Each link is kept or left out for itself, and those that are kept stay in their order.
pub proof fn law_links_are_kept_in_order(a: Seq<Seq<char>>, b: Seq<Seq<char>>, url: Seq<char>)
    ensures
        kept_links(Seq::empty()) == Seq::<Seq<char>>::empty(),
        is_excluded(url) ==> kept_links(seq![url]) == Seq::<Seq<char>>::empty(),
        !is_excluded(url) ==> kept_links(seq![url]) == seq![url],
        kept_links(a + b) == kept_links(a) + kept_links(b),
    decreases b.len(),
{
    reveal_with_fuel(Seq::filter, 2);
    assert(seq![url].drop_last() =~= Seq::<Seq<char>>::empty());
    assert(kept_links(Seq::empty()) =~= Seq::<Seq<char>>::empty());
    if is_excluded(url) {
        assert(kept_links(seq![url]) =~= Seq::<Seq<char>>::empty());
    } else {
        assert(kept_links(seq![url]) =~= seq![url]);
    }
    if b.len() == 0 {
        assert(a + b =~= a);
        assert(kept_links(a) + kept_links(b) =~= kept_links(a));
    } else {
        law_links_are_kept_in_order(a, b.drop_last(), url);
        assert((a + b).drop_last() =~= a + b.drop_last());
        assert((a + b).last() == b.last());
        assert(kept_links(a + b) =~= kept_links(a) + kept_links(b));
    }
}

/// The excluder recognises the links in which, with ASCII case ignored, one of six texts stands.
pub proof fn law_excluder_recognises(excluder: Excluder, url: &str, excluded: bool)
    requires
        call_ensures(Excluder::is_match, (&excluder, url), excluded),
    ensures
        ({
            let low = url@.map_values(
                |c: char| if 'A' <= c <= 'Z' { (c as u32 + 32) as char } else { c },
            );
            excluded <==> exists|at: int|
                0 <= at <= low.len() && {
                    let rest = #[trigger] low.skip(at);
                    ||| "cdn."@.is_prefix_of(rest)
                    ||| "tenor."@.is_prefix_of(rest)
                    ||| "redgifs."@.is_prefix_of(rest)
                    ||| "discordapp."@.is_prefix_of(rest)
                    ||| "redd.it"@.is_prefix_of(rest)
                    ||| "media.tumblr."@.is_prefix_of(rest)
                }
        }),
{
    law_excluded_links(url@);
}

/// The links of a message come from its content, its attachments and its embeds, and each of
/// these gives all that it has.
pub proof fn law_message_gives_all_links(
    in_content: Vec<String>,
    message: Message,
    links: Vec<String>,
)
    requires
        call_ensures(message_links, (in_content, &message), links),
    ensures
        ({
            let first = in_content@.len() as int;
            let second = first + message.attachments@.len();
            let shown = message.embeds@.filter(|e: Embed| e.url is Some);
            &&& links@.len() == second + shown.len()
            &&& forall|i: int| 0 <= i < first ==> links@[i]@ == (#[trigger] in_content@[i])@
            &&& forall|i: int|
                0 <= i < message.attachments@.len() ==> links@[first + i]@ == (
                #[trigger] message.attachments@[i]).url@
            &&& forall|i: int|
                0 <= i < shown.len() ==> links@[second + i]@ == (#[trigger] shown[i]).url->0@
        }),
{
    let content = texts(in_content@);
    let all = texts(links@);
    law_links_of_message(content, message);
    let first = in_content@.len() as int;
    let second = first + message.attachments@.len();
    let shown = message.embeds@.filter(|e: Embed| e.url is Some);
    assert forall|i: int| 0 <= i < first implies links@[i]@ == (#[trigger] in_content@[i])@ by {
        assert(all.take(first)[i] == content[i]);
    }
    assert forall|i: int| 0 <= i < shown.len() implies links@[second + i]@ == (
    #[trigger] shown[i]).url->0@ by {
        assert(all[second + i] == links@[second + i]@);
    }
}

/// Of some links, those are kept that are of interest, in their order, and the others are
/// counted.
pub proof fn law_links_are_kept_or_counted(
    links: Vec<String>,
    excluder: Excluder,
    res: (Vec<String>, usize),
)
    requires
        call_ensures(keep_links, (links, &excluder), res),
    ensures
        texts(res.0@) == texts(links@).filter(|url: Seq<char>| !is_excluded(url)),
        res.0@.len() + res.1 == links@.len(),
{
}

} // verus!
