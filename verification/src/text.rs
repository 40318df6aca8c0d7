//! Splitting, joining and thinning out text.
use vstd::prelude::*;

verus! {

/// What the strings hold.
pub open spec fn texts(strings: Seq<String>) -> Seq<Seq<char>> {
    strings.map_values(|s: String| s@)
}

/// `text` without the character `c`.
pub open spec fn without(text: Seq<char>, c: char) -> Seq<char> {
    text.filter(|x: char| x != c)
}

/// The pieces of `text` between the separators. An empty text is one empty piece.
pub open spec fn split_on(text: Seq<char>, sep: char) -> Seq<Seq<char>>
    decreases text.len(),
{
    if text.len() == 0 {
        seq![Seq::<char>::empty()]
    } else {
        let front = split_on(text.drop_last(), sep);
        if text.last() == sep {
            front.push(Seq::<char>::empty())
        } else {
            front.update(front.len() - 1, front.last().push(text.last()))
        }
    }
}

/// The pieces in a row, with `sep` between each two of them.
pub open spec fn join(pieces: Seq<Seq<char>>, sep: Seq<char>) -> Seq<char>
    decreases pieces.len(),
{
    if pieces.len() == 0 {
        Seq::empty()
    } else if pieces.len() == 1 {
        pieces[0]
    } else {
        join(pieces.drop_last(), sep) + sep + pieces.last()
    }
}

/// `text` without the character `c`.
pub fn remove_char(text: &str, c: char) -> (res: String)
    ensures
        res@ == without(text@, c),
{
    let mut res = String::new();
    proof {
        reveal(Seq::filter);
        assert(without(text@.take(0), c) =~= Seq::<char>::empty());
    }
    for x in it: text.chars()
        invariant
            it.seq() == text@,
            res@ == without(text@.take(it.index()), c),
    {
        proof {
            reveal(Seq::filter);
            let next = text@.take(it.index() + 1);
            assert(next.drop_last() =~= text@.take(it.index()));
            assert(next.last() == x);
        }
        if x != c {
            res.push(x);
        }
    }
    assert(text@.take(text@.len() as int) =~= text@);
    res
}

/// The pieces of `text` between the separators.
pub fn split(text: &str, sep: char) -> (pieces: Vec<String>)
    ensures
        texts(pieces@) == split_on(text@, sep),
{
    let mut pieces: Vec<String> = Vec::new();
    let mut current = String::new();
    assert(texts(pieces@).push(current@) =~= split_on(text@.take(0), sep));
    for x in it: text.chars()
        invariant
            it.seq() == text@,
            texts(pieces@).push(current@) == split_on(text@.take(it.index()), sep),
    {
        let ghost before = texts(pieces@).push(current@);
        proof {
            let next = text@.take(it.index() + 1);
            assert(next.drop_last() =~= text@.take(it.index()));
            assert(next.last() == x);
        }
        if x == sep {
            pieces.push(current);
            current = String::new();
            assert(texts(pieces@) =~= before);
        } else {
            current.push(x);
            assert(texts(pieces@).push(current@) =~= before.update(
                before.len() - 1,
                before.last().push(x),
            ));
        }
    }
    assert(text@.take(text@.len() as int) =~= text@);
    let ghost before = texts(pieces@).push(current@);
    pieces.push(current);
    assert(texts(pieces@) =~= before);
    pieces
}

/// The pieces in a row, with `sep` between each two of them.
pub fn join_with(pieces: &Vec<String>, sep: &str) -> (res: String)
    ensures
        res@ == join(texts(pieces@), sep@),
{
    let ghost all = texts(pieces@);
    let mut res = String::new();
    for i in 0..pieces.len()
        invariant
            all == texts(pieces@),
            res@ == join(all.take(i as int), sep@),
    {
        proof {
            let next = all.take(i + 1);
            assert(next.drop_last() =~= all.take(i as int));
            assert(next.last() == pieces@[i as int]@);
            if i == 0 {
                assert(res@ + pieces@[0]@ =~= join(next, sep@));
            }
        }
        if i != 0 {
            res.append(sep);
        }
        res.append(pieces[i].as_str());
    }
    assert(all.take(all.len() as int) =~= all);
    res
}

/// What is left of a text without a character stood in the text and is another character.
pub proof fn lemma_without(text: Seq<char>, c: char)
    ensures
        forall|i: int|
            #![trigger without(text, c)[i]]
            0 <= i < without(text, c).len() ==> text.contains(without(text, c)[i]) && without(
                text,
                c,
            )[i] != c,
    decreases text.len(),
{
    reveal(Seq::filter);
    if text.len() > 0 {
        lemma_without(text.drop_last(), c);
        let shorter = without(text.drop_last(), c);
        assert forall|i: int|
            #![trigger without(text, c)[i]]
            0 <= i < without(text, c).len() implies text.contains(without(text, c)[i]) && without(
            text,
            c,
        )[i] != c by {
            if i < shorter.len() {
                assert(without(text, c)[i] == shorter[i]);
                assert(text.drop_last().contains(shorter[i]));
                let k = choose|k: int|
                    0 <= k < text.drop_last().len() && text.drop_last()[k] == shorter[i];
                assert(text[k] == shorter[i]);
            } else {
                assert(without(text, c)[i] == text[text.len() - 1]);
            }
        }
    }
}

/// The pieces hold no separator, and put together again they are the text.
pub proof fn law_split_join(text: Seq<char>, sep: char)
    ensures
        split_on(text, sep).len() > 0,
        forall|i: int|
            0 <= i < split_on(text, sep).len() ==> !(#[trigger] split_on(text, sep)[i]).contains(
                sep,
            ),
        join(split_on(text, sep), seq![sep]) == text,
    decreases text.len(),
{
    let pieces = split_on(text, sep);
    if text.len() == 0 {
        assert(join(pieces, seq![sep]) =~= text);
    } else {
        let start = text.drop_last();
        let front = split_on(start, sep);
        law_split_join(start, sep);
        assert(text =~= start.push(text.last()));
        if text.last() == sep {
            assert(pieces.drop_last() =~= front);
            assert(join(pieces, seq![sep]) =~= text);
        } else {
            assert(pieces.drop_last() =~= front.drop_last());
            assert(join(pieces, seq![sep]) =~= text);
            assert forall|i: int| 0 <= i < pieces.len() implies !(#[trigger] pieces[i]).contains(
                sep,
            ) by {
                if i == pieces.len() - 1 {
                    let old_last = front[i];
                    assert(!old_last.contains(sep));
                    if pieces[i].contains(sep) {
                        let k = choose|k: int| 0 <= k < pieces[i].len() && pieces[i][k] == sep;
                        assert(k < old_last.len());
                        assert(old_last[k] == sep);
                    }
                } else {
                    assert(pieces[i] == front[i]);
                }
            }
        }
    }
}

/// A text without a separator, after a separator, is a piece of its own.
proof fn lemma_split_last(front: Seq<char>, last: Seq<char>, sep: char)
    requires
        !last.contains(sep),
    ensures
        split_on(front + seq![sep] + last, sep) == split_on(front, sep).push(last),
    decreases last.len(),
{
    let text = front + seq![sep] + last;
    if last.len() == 0 {
        assert(last =~= Seq::<char>::empty());
        assert(text.drop_last() =~= front);
        assert(split_on(text, sep) =~= split_on(front, sep).push(last));
    } else {
        let shorter = last.drop_last();
        assert(!shorter.contains(sep)) by {
            if shorter.contains(sep) {
                let k = choose|k: int| 0 <= k < shorter.len() && shorter[k] == sep;
                assert(last[k] == sep);
            }
        }
        lemma_split_last(front, shorter, sep);
        assert(text.drop_last() =~= front + seq![sep] + shorter);
        assert(text.last() != sep) by {
            assert(last[last.len() - 1] == text.last());
        }
        assert(shorter.push(text.last()) =~= last);
        assert(split_on(text, sep) =~= split_on(front, sep).push(last));
    }
}

/// A text without a separator is its only piece.
proof fn lemma_split_single(text: Seq<char>, sep: char)
    requires
        !text.contains(sep),
    ensures
        split_on(text, sep) == seq![text],
    decreases text.len(),
{
    if text.len() == 0 {
        assert(text =~= Seq::<char>::empty());
    } else {
        let shorter = text.drop_last();
        assert(!shorter.contains(sep)) by {
            if shorter.contains(sep) {
                let k = choose|k: int| 0 <= k < shorter.len() && shorter[k] == sep;
                assert(text[k] == sep);
            }
        }
        lemma_split_single(shorter, sep);
        assert(text.last() != sep) by {
            assert(text[text.len() - 1] == text.last());
        }
        assert(shorter.push(text.last()) =~= text);
        assert(split_on(text, sep) =~= seq![text]);
    }
}

/// Pieces that hold no separator are read back from the text that they make together.
pub proof fn law_join_split(pieces: Seq<Seq<char>>, sep: char)
    requires
        pieces.len() > 0,
        forall|i: int| 0 <= i < pieces.len() ==> !(#[trigger] pieces[i]).contains(sep),
    ensures
        split_on(join(pieces, seq![sep]), sep) == pieces,
    decreases pieces.len(),
{
    if pieces.len() == 1 {
        lemma_split_single(pieces[0], sep);
        assert(pieces =~= seq![pieces[0]]);
    } else {
        let front = pieces.drop_last();
        assert(!pieces[pieces.len() - 1].contains(sep));
        law_join_split(front, sep);
        lemma_split_last(join(front, seq![sep]), pieces.last(), sep);
        assert(front.push(pieces.last()) =~= pieces);
    }
}

/// Each text is what its string holds.
pub proof fn law_texts(strings: Seq<String>)
    ensures
        texts(strings).len() == strings.len(),
        forall|i: int| 0 <= i < strings.len() ==> #[trigger] texts(strings)[i] == strings[i]@,
{
}

/// Only the character itself is left out, and each other one stays where it stood.
pub proof fn law_without(a: Seq<char>, b: Seq<char>, x: char, c: char)
    ensures
        without(Seq::empty(), c) == Seq::<char>::empty(),
        without(seq![c], c) == Seq::<char>::empty(),
        x != c ==> without(seq![x], c) == seq![x],
        without(a + b, c) == without(a, c) + without(b, c),
    decreases b.len(),
{
    reveal_with_fuel(Seq::filter, 2);
    assert(seq![c].drop_last() =~= Seq::<char>::empty());
    assert(seq![x].drop_last() =~= Seq::<char>::empty());
    assert(without(seq![c], c) =~= Seq::<char>::empty());
    if x != c {
        assert(without(seq![x], c) =~= seq![x]);
    }
    if b.len() == 0 {
        assert(a + b =~= a);
        assert(without(a, c) + without(b, c) =~= without(a, c));
    } else {
        law_without(a, b.drop_last(), x, c);
        assert((a + b).drop_last() =~= a + b.drop_last());
        assert((a + b).last() == b.last());
        assert(without(a + b, c) =~= without(a, c) + without(b, c));
    }
}

/// Joining puts the separator between two pieces and nowhere else.
pub proof fn law_join(pieces: Seq<Seq<char>>, piece: Seq<char>, sep: Seq<char>)
    ensures
        join(Seq::empty(), sep) == Seq::<char>::empty(),
        join(seq![piece], sep) == piece,
        pieces.len() > 0 ==> join(pieces.push(piece), sep) == join(pieces, sep) + sep + piece,
{
    if pieces.len() > 0 {
        assert(pieces.push(piece).drop_last() =~= pieces);
    }
}

/// Leaving a character out leaves no such character, and changes nothing where there is none.
pub proof fn law_removed_char(text: &str, c: char, res: String)
    requires
        call_ensures(remove_char, (text, c), res),
    ensures
        !res@.contains(c),
        !text@.contains(c) ==> res@ == text@,
{
    lemma_without(text@, c);
    if res@.contains(c) {
        let k = choose|k: int| 0 <= k < res@.len() && res@[k] == c;
        assert(without(text@, c)[k] == c);
    }
    if !text@.contains(c) {
        lemma_nothing_left_out(text@, c);
    }
}

proof fn lemma_nothing_left_out(text: Seq<char>, c: char)
    requires
        !text.contains(c),
    ensures
        without(text, c) == text,
    decreases text.len(),
{
    reveal(Seq::filter);
    if text.len() > 0 {
        let shorter = text.drop_last();
        assert(text[text.len() - 1] != c);
        assert(!shorter.contains(c)) by {
            if shorter.contains(c) {
                let k = choose|k: int| 0 <= k < shorter.len() && shorter[k] == c;
                assert(text[k] == c);
            }
        }
        lemma_nothing_left_out(shorter, c);
        assert(without(text, c) =~= text);
    } else {
        assert(without(text, c) =~= text);
    }
}

/// The pieces of a text, joined again by the separator, are the text, and none of them holds
/// the separator.
pub proof fn law_pieces_make_text(
    text: &str,
    sep: char,
    pieces: Vec<String>,
    between: &str,
    joined: String,
)
    requires
        call_ensures(split, (text, sep), pieces),
        call_ensures(join_with, (&pieces, between), joined),
        between@ == seq![sep],
    ensures
        joined@ == text@,
        pieces@.len() > 0,
        forall|i: int| 0 <= i < pieces@.len() ==> !(#[trigger] pieces@[i])@.contains(sep),
{
    law_split_join(text@, sep);
    assert forall|i: int| 0 <= i < pieces@.len() implies !(#[trigger] pieces@[i])@.contains(
        sep,
    ) by {
        assert(texts(pieces@)[i] == pieces@[i]@);
    }
}

} // verus!
