use vstd::prelude::*;
use vstd::string::{StrSliceExecFns, StringExecFns};

verus! {

/// The pieces into which the separator cuts a text: one more than there are
/// separators, each possibly empty.
pub open spec fn split_on(s: Seq<char>, sep: char) -> Seq<Seq<char>>
    decreases s.len(),
{
    if s.len() == 0 {
        seq![Seq::empty()]
    } else if s.last() == sep {
        split_on(s.drop_last(), sep).push(Seq::empty())
    } else {
        let front = split_on(s.drop_last(), sep);
        front.drop_last().push(front.last().push(s.last()))
    }
}

/// The pieces one after the other with a separator between each two.
pub open spec fn join_with(pieces: Seq<Seq<char>>, sep: char) -> Seq<char>
    decreases pieces.len(),
{
    if pieces.len() == 0 {
        Seq::empty()
    } else if pieces.len() == 1 {
        pieces[0]
    } else {
        join_with(pieces.drop_last(), sep).push(sep) + pieces.last()
    }
}

/// Whether there is at least one piece and no piece holds the separator.
pub open spec fn splittable(pieces: Seq<Seq<char>>, sep: char) -> bool {
    &&& pieces.len() > 0
    &&& forall|i: int| 0 <= i < pieces.len() ==> !(#[trigger] pieces[i]).contains(sep)
}

/// A text without the separator is its own single piece.
pub proof fn lemma_split_plain(s: Seq<char>, sep: char)
    requires
        !s.contains(sep),
    ensures
        split_on(s, sep) == seq![s],
    decreases s.len(),
{
    if s.len() > 0 {
        let front = s.drop_last();
        assert forall|j: int| 0 <= j < front.len() implies front[j] != sep by {
            assert(s[j] == front[j]);
            assert(s.contains(s[j]));
        }
        assert(!front.contains(sep));
        assert(s.contains(s.last()));
        lemma_split_plain(front, sep);
        assert(seq![front].drop_last().push(seq![front].last().push(s.last())) =~= seq![s]) by {
            assert(front.push(s.last()) =~= s);
        }
    } else {
        assert(s =~= Seq::<char>::empty());
    }
}

/// A separator and a piece without one, added to a text, add that piece to its pieces.
pub proof fn lemma_split_append(a: Seq<char>, b: Seq<char>, sep: char)
    requires
        !b.contains(sep),
    ensures
        split_on(a.push(sep) + b, sep) == split_on(a, sep).push(b),
    decreases b.len(),
{
    let whole = a.push(sep) + b;
    if b.len() == 0 {
        assert(whole =~= a.push(sep));
        assert(whole.drop_last() =~= a);
        assert(b =~= Seq::<char>::empty());
    } else {
        let front = b.drop_last();
        assert forall|j: int| 0 <= j < front.len() implies front[j] != sep by {
            assert(b[j] == front[j]);
            assert(b.contains(b[j]));
        }
        assert(!front.contains(sep));
        assert(b.contains(b.last()));
        lemma_split_append(a, front, sep);
        assert(whole.drop_last() =~= a.push(sep) + front);
        assert(whole.last() == b.last());
        let pieces = split_on(a, sep).push(front);
        assert(pieces.drop_last() =~= split_on(a, sep));
        assert(front.push(b.last()) =~= b);
    }
}

/// Splitting undoes joining, for pieces that do not hold the separator.
pub proof fn lemma_split_join(pieces: Seq<Seq<char>>, sep: char)
    requires
        splittable(pieces, sep),
    ensures
        split_on(join_with(pieces, sep), sep) == pieces,
    decreases pieces.len(),
{
    if pieces.len() == 1 {
        lemma_split_plain(pieces[0], sep);
        assert(seq![pieces[0]] =~= pieces);
    } else {
        let front = pieces.drop_last();
        assert(splittable(front, sep)) by {
            assert forall|i: int| 0 <= i < front.len() implies !(#[trigger] front[i]).contains(
                sep,
            ) by {
                assert(front[i] == pieces[i]);
            }
        }
        lemma_split_join(front, sep);
        lemma_split_append(join_with(front, sep), pieces.last(), sep);
        assert(front.push(pieces.last()) =~= pieces);
    }
}

/// The texts of a list of strings, in order.
pub open spec fn texts_of(lines: Seq<String>) -> Seq<Seq<char>> {
    lines.map_values(|line: String| line@)
}

/// The line-feed character, which separates lines.
pub open spec fn line_feed() -> char {
    '\n'
}

/// Cuts a text at every line feed.
pub fn split_lines(text: &str) -> (lines: Vec<String>)
    ensures
        texts_of(lines@) == split_on(text@, line_feed()),
{
    broadcast use vstd::string::group_string_axioms;

    let count = text.unicode_len();
    let mut lines: Vec<String> = Vec::new();
    let mut start: usize = 0;
    let mut index: usize = 0;
    assert(text@.take(0) =~= Seq::<char>::empty());
    assert(text@.subrange(0, 0) =~= Seq::<char>::empty());
    assert(texts_of(lines@).push(text@.subrange(0, 0)) =~= seq![Seq::<char>::empty()]);
    for c in it: text.chars()
        invariant
            it.seq() == text@,
            index == it.index(),
            count == text@.len(),
            start <= index <= text@.len(),
            split_on(text@.take(index as int), line_feed()) == texts_of(lines@).push(
                text@.subrange(start as int, index as int),
            ),
    {
        let ghost before = text@.take(index as int);
        let ghost now = text@.take(index + 1);
        let ghost done = texts_of(lines@);
        let ghost open = text@.subrange(start as int, index as int);
        proof {
            assert(now.drop_last() =~= before);
            assert(now.last() == c);
        }
        if c == '\n' {
            let piece = text.substring_char(start, index);
            lines.push(piece.to_owned());
            start = index + 1;
            proof {
                assert(texts_of(lines@) =~= done.push(open));
                assert(text@.subrange(start as int, index + 1) =~= Seq::<char>::empty());
            }
        } else {
            proof {
                assert(done.push(open).drop_last() =~= done);
                assert(open.push(c) =~= text@.subrange(start as int, index + 1));
            }
        }
        index = index + 1;
    }
    assert(text@.take(index as int) =~= text@);
    let ghost done = texts_of(lines@);
    let piece = text.substring_char(start, index);
    lines.push(piece.to_owned());
    assert(texts_of(lines@) =~= done.push(text@.subrange(start as int, index as int)));
    lines
}

/// Puts lines together with a line feed between each two.
pub fn join_lines(lines: &Vec<String>) -> (text: String)
    ensures
        text@ == join_with(texts_of(lines@), line_feed()),
{
    let mut text = String::new();
    let mut i: usize = 0;
    assert(texts_of(lines@).take(0) =~= Seq::<Seq<char>>::empty());
    while i < lines.len()
        invariant
            i <= lines.len(),
            text@ == join_with(texts_of(lines@).take(i as int), line_feed()),
        decreases lines.len() - i,
    {
        let ghost before = texts_of(lines@).take(i as int);
        let ghost now = texts_of(lines@).take(i + 1);
        proof {
            reveal_strlit("\n");
            assert(now.drop_last() =~= before);
            assert(now.last() == lines@[i as int]@);
            assert("\n"@ =~= seq![line_feed()]);
        }
        if i > 0 {
            text.append("\n");
            assert(text@ =~= join_with(before, line_feed()).push(line_feed()));
        } else {
            assert(text@ + lines@[i as int]@ =~= lines@[i as int]@);
        }
        text.append(lines[i].as_str());
        i += 1;
    }
    assert(texts_of(lines@).take(i as int) =~= texts_of(lines@));
    text
}

} // verus!
