use vstd::prelude::*;
use vstd::string::{StrSliceExecFns, StringExecFns};
use vstd::utf8::encode_utf8;

verus! {

/// The character of a decimal digit.
pub open spec fn digit_char(d: nat) -> char {
    (48 + d) as char
}

/// The decimal digits of a natural number, without leading zeros.
pub open spec fn decimal(n: nat) -> Seq<char>
    decreases n,
{
    if n < 10 {
        seq![digit_char(n)]
    } else {
        decimal(n / 10).push(digit_char(n % 10))
    }
}

/// The decimal form of an integer: its digits, behind a minus sign where it is
/// negative.
pub open spec fn signed_decimal(v: int) -> Seq<char> {
    if v < 0 {
        seq!['-'] + decimal((-v) as nat)
    } else {
        decimal(v as nat)
    }
}

/// `count` times the character `c`.
pub open spec fn repeated(c: char, count: nat) -> Seq<char> {
    Seq::new(count, |i: int| c)
}

/// A text with blanks behind it that fill it up to `width` characters; a text that is
/// as long or longer stays as it is.
pub open spec fn padded(text: Seq<char>, width: nat) -> Seq<char> {
    if text.len() >= width {
        text
    } else {
        text + repeated(' ', (width - text.len()) as nat)
    }
}

fn digit_text(d: u8) -> (text: &'static str)
    requires
        d < 10,
    ensures
        text@ == seq![digit_char(d as nat)],
{
    proof {
        reveal_strlit("0");
        reveal_strlit("1");
        reveal_strlit("2");
        reveal_strlit("3");
        reveal_strlit("4");
        reveal_strlit("5");
        reveal_strlit("6");
        reveal_strlit("7");
        reveal_strlit("8");
        reveal_strlit("9");
    }
    let text = if d == 0 {
        "0"
    } else if d == 1 {
        "1"
    } else if d == 2 {
        "2"
    } else if d == 3 {
        "3"
    } else if d == 4 {
        "4"
    } else if d == 5 {
        "5"
    } else if d == 6 {
        "6"
    } else if d == 7 {
        "7"
    } else if d == 8 {
        "8"
    } else {
        "9"
    };
    assert(text@ =~= seq![digit_char(d as nat)]);
    text
}

/// The decimal form of a natural number.
pub fn decimal_text(n: u64) -> (text: String)
    ensures
        text@ == decimal(n as nat),
    decreases n,
{
    if n < 10 {
        digit_text(n as u8).to_owned()
    } else {
        let mut text = decimal_text(n / 10);
        text.append(digit_text((n % 10) as u8));
        assert(text@ =~= decimal((n / 10) as nat).push(digit_char((n % 10) as nat)));
        text
    }
}

/// The decimal form of an integer.
pub fn signed_decimal_text(v: i64) -> (text: String)
    ensures
        text@ == signed_decimal(v as int),
{
    if v < 0 {
        let magnitude: u64 = (-(v as i128)) as u64;
        proof {
            reveal_strlit("-");
        }
        let mut text = "-".to_owned();
        let digits = decimal_text(magnitude);
        text.append(digits.as_str());
        assert(text@ =~= seq!['-'] + decimal((-v) as nat));
        text
    } else {
        decimal_text(v as u64)
    }
}

/// `count` times the one character of `unit`.
pub fn repeat_text(unit: &'static str, count: usize) -> (text: String)
    requires
        unit@.len() == 1,
    ensures
        text@ == repeated(unit@[0], count as nat),
{
    let mut text = String::new();
    let mut i: usize = 0;
    assert(text@ =~= repeated(unit@[0], 0));
    while i < count
        invariant
            i <= count,
            unit@.len() == 1,
            text@ == repeated(unit@[0], i as nat),
        decreases count - i,
    {
        text.append(unit);
        i += 1;
        assert(text@ =~= repeated(unit@[0], i as nat));
    }
    text
}

/// The text with blanks behind it that fill it up to `width` characters.
pub fn pad_text(text: &str, width: usize) -> (wide: String)
    ensures
        wide@ == padded(text@, width as nat),
{
    let length = text.unicode_len();
    let mut wide = text.to_owned();
    if length < width {
        proof {
            reveal_strlit(" ");
        }
        let blanks = repeat_text(" ", width - length);
        wide.append(blanks.as_str());
    }
    wide
}

/// Whether the bytes `a` come before the bytes `b`, or are `b`, in the order of a
/// dictionary: the first byte in which they differ decides, and a text comes before
/// every longer text that starts with it.
pub open spec fn bytes_le(a: Seq<u8>, b: Seq<u8>) -> bool
    decreases a.len(),
{
    if a.len() == 0 {
        true
    } else if b.len() == 0 {
        false
    } else if a[0] != b[0] {
        a[0] < b[0]
    } else {
        bytes_le(a.skip(1), b.skip(1))
    }
}

/// Whether the text `a` comes before the text `b`, or is `b`, in the order of their
/// UTF-8 bytes.
pub open spec fn text_le(a: Seq<char>, b: Seq<char>) -> bool {
    bytes_le(encode_utf8(a), encode_utf8(b))
}

/// Of two byte sequences one comes before the other, or they are the same.
pub proof fn lemma_bytes_le_total(a: Seq<u8>, b: Seq<u8>)
    ensures
        bytes_le(a, b) || bytes_le(b, a),
        bytes_le(a, b) && bytes_le(b, a) ==> a == b,
    decreases a.len(),
{
    if a.len() > 0 && b.len() > 0 && a[0] == b[0] {
        lemma_bytes_le_total(a.skip(1), b.skip(1));
        if bytes_le(a, b) && bytes_le(b, a) {
            assert(a =~= seq![a[0]] + a.skip(1));
            assert(b =~= seq![b[0]] + b.skip(1));
        }
    } else if a.len() == 0 && b.len() == 0 {
        assert(a =~= b);
    }
}

/// What comes before something that comes before a third comes before the third.
pub proof fn lemma_bytes_le_transitive(a: Seq<u8>, b: Seq<u8>, c: Seq<u8>)
    requires
        bytes_le(a, b),
        bytes_le(b, c),
    ensures
        bytes_le(a, c),
    decreases a.len(),
{
    if a.len() > 0 && b.len() > 0 && c.len() > 0 && a[0] == b[0] && b[0] == c[0] {
        lemma_bytes_le_transitive(a.skip(1), b.skip(1), c.skip(1));
    }
}

/// The order of texts ranks any two texts, ranks by transitivity, and ranks two texts
/// alike only where they are the same text.
pub proof fn lemma_text_le_order(a: Seq<char>, b: Seq<char>, c: Seq<char>)
    ensures
        text_le(a, b) || text_le(b, a),
        text_le(a, b) && text_le(b, c) ==> text_le(a, c),
        text_le(a, b) && text_le(b, a) ==> a == b,
{
    lemma_bytes_le_total(encode_utf8(a), encode_utf8(b));
    if text_le(a, b) && text_le(b, c) {
        lemma_bytes_le_transitive(encode_utf8(a), encode_utf8(b), encode_utf8(c));
    }
    if text_le(a, b) && text_le(b, a) {
        vstd::utf8::encode_utf8_decode_utf8(a);
        vstd::utf8::encode_utf8_decode_utf8(b);
    }
}

/// Whether the bytes `a` come before the bytes `b`, or are `b`, in dictionary order.
pub fn bytes_precede(a: &[u8], b: &[u8]) -> (le: bool)
    ensures
        le == bytes_le(a@, b@),
{
    let mut i: usize = 0;
    assert(a@.skip(0) =~= a@);
    assert(b@.skip(0) =~= b@);
    while i < a.len() && i < b.len()
        invariant
            i <= a.len(),
            i <= b.len(),
            bytes_le(a@, b@) == bytes_le(a@.skip(i as int), b@.skip(i as int)),
        decreases a.len() - i,
    {
        let ghost x = a@.skip(i as int);
        let ghost y = b@.skip(i as int);
        assert(x[0] == a@[i as int] && y[0] == b@[i as int]);
        if a[i] != b[i] {
            return a[i] < b[i];
        }
        assert(x.skip(1) =~= a@.skip(i + 1));
        assert(y.skip(1) =~= b@.skip(i + 1));
        i += 1;
    }
    i == a.len()
}

/// Whether the text `a` comes before the text `b`, or is `b`.
pub fn text_precedes(a: &str, b: &str) -> (le: bool)
    ensures
        le == text_le(a@, b@),
{
    bytes_precede(a.as_bytes(), b.as_bytes())
}

/// Whether `needle` occurs in `hay` at the offset `at`.
pub open spec fn occurs_at(hay: Seq<u8>, needle: Seq<u8>, at: int) -> bool {
    0 <= at && at + needle.len() <= hay.len() && hay.subrange(at, at + needle.len()) == needle
}

/// Whether the bytes `needle` occur somewhere in the bytes `hay`, one behind the
/// other.
pub open spec fn bytes_contain(hay: Seq<u8>, needle: Seq<u8>) -> bool {
    exists|at: int| occurs_at(hay, needle, at)
}

/// Whether the text `needle` occurs in the text `hay`, by their UTF-8 bytes.
pub open spec fn text_contains(hay: Seq<char>, needle: Seq<char>) -> bool {
    bytes_contain(encode_utf8(hay), encode_utf8(needle))
}

fn matches_at(hay: &[u8], needle: &[u8], at: usize) -> (found: bool)
    requires
        at + needle.len() <= hay.len(),
    ensures
        found == occurs_at(hay@, needle@, at as int),
{
    let ghost part = hay@.subrange(at as int, at + needle.len());
    let mut i: usize = 0;
    while i < needle.len()
        invariant
            i <= needle.len(),
            at + needle.len() <= hay.len(),
            part == hay@.subrange(at as int, at + needle.len()),
            forall|j: int| 0 <= j < i ==> part[j] == needle@[j],
        decreases needle.len() - i,
    {
        if hay[at + i] != needle[i] {
            assert(part[i as int] != needle@[i as int]);
            return false;
        }
        i += 1;
    }
    assert(part =~= needle@);
    true
}

/// Whether the text `needle` occurs in the text `hay`.
pub fn contains_text(hay: &str, needle: &str) -> (found: bool)
    ensures
        found == text_contains(hay@, needle@),
{
    let text = hay.as_bytes();
    let part = needle.as_bytes();
    if part.len() > text.len() {
        return false;
    }
    if part.len() == 0 {
        assert(text@.subrange(0, 0) =~= part@);
        assert(occurs_at(text@, part@, 0));
        return true;
    }
    let last = text.len() - part.len();
    let mut at: usize = 0;
    while at <= last
        invariant
            at <= last + 1,
            last == text.len() - part.len(),
            0 < part.len() <= text.len(),
            text@ == encode_utf8(hay@),
            part@ == encode_utf8(needle@),
            forall|j: int| 0 <= j < at ==> !occurs_at(text@, part@, j),
        decreases last + 1 - at,
    {
        if matches_at(text, part, at) {
            return true;
        }
        at += 1;
    }
    false
}

/// A sorted list with one more item: the item stands behind the last item that does
/// not come after it.
pub open spec fn insert_sorted<T>(sorted: Seq<T>, item: T, le: spec_fn(T, T) -> bool) -> Seq<T>
    decreases sorted.len(),
{
    if sorted.len() == 0 {
        seq![item]
    } else if le(sorted.last(), item) {
        sorted.push(item)
    } else {
        insert_sorted(sorted.drop_last(), item, le).push(sorted.last())
    }
}

/// The items of a list in order, those that rank alike in the order in which the
/// list has them.
pub open spec fn stable_sort<T>(items: Seq<T>, le: spec_fn(T, T) -> bool) -> Seq<T>
    decreases items.len(),
{
    if items.len() == 0 {
        Seq::empty()
    } else {
        insert_sorted(stable_sort(items.drop_last(), le), items.last(), le)
    }
}

/// Whether each item of a list comes before those behind it, or ranks with them.
pub open spec fn is_sorted<T>(items: Seq<T>, le: spec_fn(T, T) -> bool) -> bool {
    forall|i: int, j: int| 0 <= i < j < items.len() ==> le(items[i], items[j])
}

/// Whether an order ranks any two items, and ranks by transitivity.
pub open spec fn is_order<T>(le: spec_fn(T, T) -> bool) -> bool {
    &&& forall|a: T, b: T| #[trigger] le(a, b) || le(b, a)
    &&& forall|a: T, b: T, c: T| #[trigger] le(a, b) && #[trigger] le(b, c) ==> le(a, c)
}

/// Inserting keeps the items and adds the one.
pub proof fn lemma_insert_sorted_items<T>(sorted: Seq<T>, item: T, le: spec_fn(T, T) -> bool)
    ensures
        insert_sorted(sorted, item, le).to_multiset() == sorted.to_multiset().insert(item),
        insert_sorted(sorted, item, le).len() == sorted.len() + 1,
    decreases sorted.len(),
{
    broadcast use vstd::seq_lib::group_to_multiset_ensures;

    if sorted.len() == 0 {
        assert(sorted =~= Seq::<T>::empty());
        assert(seq![item] =~= Seq::<T>::empty().push(item));
    } else if le(sorted.last(), item) {
    } else {
        lemma_insert_sorted_items(sorted.drop_last(), item, le);
        assert(sorted =~= sorted.drop_last().push(sorted.last()));
        assert(insert_sorted(sorted, item, le).to_multiset() =~= sorted.to_multiset().insert(
            item,
        ));
    }
}

/// Sorting keeps the items: each as often as the list has it.
pub proof fn lemma_stable_sort_items<T>(items: Seq<T>, le: spec_fn(T, T) -> bool)
    ensures
        stable_sort(items, le).to_multiset() == items.to_multiset(),
        stable_sort(items, le).len() == items.len(),
    decreases items.len(),
{
    broadcast use vstd::seq_lib::group_to_multiset_ensures;

    if items.len() > 0 {
        lemma_stable_sort_items(items.drop_last(), le);
        lemma_insert_sorted_items(stable_sort(items.drop_last(), le), items.last(), le);
        assert(items =~= items.drop_last().push(items.last()));
    } else {
        assert(items =~= Seq::<T>::empty());
    }
}

/// What no item of a list comes after, and the new item neither, no item of the list
/// with the new item comes after.
pub proof fn lemma_insert_sorted_bounded<T>(
    sorted: Seq<T>,
    item: T,
    le: spec_fn(T, T) -> bool,
    bound: T,
)
    requires
        forall|i: int| 0 <= i < sorted.len() ==> le(sorted[i], bound),
        le(item, bound),
    ensures
        forall|i: int|
            0 <= i < insert_sorted(sorted, item, le).len() ==> le(
                #[trigger] insert_sorted(sorted, item, le)[i],
                bound,
            ),
    decreases sorted.len(),
{
    let result = insert_sorted(sorted, item, le);
    if sorted.len() == 0 {
        assert(result[0] == item);
    } else if le(sorted.last(), item) {
        assert forall|i: int| 0 <= i < result.len() implies le(#[trigger] result[i], bound) by {
            if i < sorted.len() {
                assert(result[i] == sorted[i]);
            } else {
                assert(result[i] == item);
            }
        }
    } else {
        let front = sorted.drop_last();
        assert forall|i: int| 0 <= i < front.len() implies le(front[i], bound) by {
            assert(front[i] == sorted[i]);
        }
        lemma_insert_sorted_bounded(front, item, le, bound);
        lemma_insert_sorted_items(front, item, le);
        let inner = insert_sorted(front, item, le);
        assert(le(sorted[sorted.len() - 1], bound));
        assert forall|i: int| 0 <= i < result.len() implies le(#[trigger] result[i], bound) by {
            if i < inner.len() {
                assert(result[i] == inner[i]);
            } else {
                assert(result[i] == sorted.last());
            }
        }
    }
}

/// Inserting into a sorted list gives a sorted list.
pub proof fn lemma_insert_sorted_sorted<T>(sorted: Seq<T>, item: T, le: spec_fn(T, T) -> bool)
    requires
        is_order(le),
        is_sorted(sorted, le),
    ensures
        is_sorted(insert_sorted(sorted, item, le), le),
    decreases sorted.len(),
{
    let result = insert_sorted(sorted, item, le);
    if sorted.len() == 0 {
    } else if le(sorted.last(), item) {
        assert forall|i: int, j: int| 0 <= i < j < result.len() implies le(
            result[i],
            result[j],
        ) by {
            if j == sorted.len() && i < sorted.len() - 1 {
                assert(le(sorted[i], sorted.last()));
            }
        }
    } else {
        let front = sorted.drop_last();
        assert(is_sorted(front, le)) by {
            assert forall|i: int, j: int| 0 <= i < j < front.len() implies le(
                front[i],
                front[j],
            ) by {
                assert(le(sorted[i], sorted[j]));
            }
        }
        lemma_insert_sorted_sorted(front, item, le);
        lemma_insert_sorted_items(front, item, le);
        let inner = insert_sorted(front, item, le);
        assert(le(item, sorted.last()));
        assert forall|i: int| 0 <= i < front.len() implies le(front[i], sorted.last()) by {
            assert(le(sorted[i], sorted[sorted.len() - 1]));
        }
        lemma_insert_sorted_bounded(front, item, le, sorted.last());
        assert forall|i: int, j: int| 0 <= i < j < result.len() implies le(
            result[i],
            result[j],
        ) by {
            if j < inner.len() {
                assert(le(inner[i], inner[j]));
            } else {
                assert(le(inner[i], sorted.last()));
            }
        }
    }
}

/// Sorting by an order gives a list in which each item comes before those behind it.
pub proof fn lemma_stable_sort_sorted<T>(items: Seq<T>, le: spec_fn(T, T) -> bool)
    requires
        is_order(le),
    ensures
        is_sorted(stable_sort(items, le), le),
    decreases items.len(),
{
    if items.len() > 0 {
        lemma_stable_sort_sorted(items.drop_last(), le);
        lemma_insert_sorted_sorted(stable_sort(items.drop_last(), le), items.last(), le);
    }
}

/// An item that has a rank among its like.
pub trait Ranked: Sized {
    /// Whether `self` comes before `other`, or ranks with it.
    spec fn ranks_before(&self, other: &Self) -> bool;

    fn comes_before(&self, other: &Self) -> (le: bool)
        ensures
            le == self.ranks_before(other),
    ;
}

/// The order of ranked items as a relation.
pub open spec fn rank_order<T: Ranked>() -> spec_fn(T, T) -> bool {
    |a: T, b: T| a.ranks_before(&b)
}

/// Where an item goes into a sorted list: behind the last item that does not come
/// after it.
fn insertion_point<T: Ranked>(sorted: &Vec<T>, item: &T) -> (at: usize)
    ensures
        at <= sorted.len(),
        insert_sorted(sorted@, *item, rank_order::<T>()) == sorted@.take(at as int).push(*item)
            + sorted@.skip(at as int),
{
    let ghost le = rank_order::<T>();
    let mut at: usize = sorted.len();
    assert(sorted@.take(at as int) =~= sorted@);
    assert(insert_sorted(sorted@, *item, le) =~= insert_sorted(sorted@.take(at as int), *item, le)
        + sorted@.skip(at as int));
    while at > 0 && !sorted[at - 1].comes_before(item)
        invariant
            at <= sorted.len(),
            le == rank_order::<T>(),
            insert_sorted(sorted@, *item, le) == insert_sorted(sorted@.take(at as int), *item, le)
                + sorted@.skip(at as int),
        decreases at,
    {
        let ghost front = sorted@.take(at as int);
        assert(front.last() == sorted@[at - 1]);
        assert(front.drop_last() =~= sorted@.take(at - 1));
        assert(insert_sorted(front.drop_last(), *item, le).push(front.last()) + sorted@.skip(
            at as int,
        ) =~= insert_sorted(front.drop_last(), *item, le) + sorted@.skip(at - 1));
        at -= 1;
    }
    proof {
        let front = sorted@.take(at as int);
        if at > 0 {
            assert(front.last() == sorted@[at - 1]);
        } else {
            assert(front =~= Seq::<T>::empty());
        }
    }
    at
}

/// Sorts a list; items that rank alike stay in the order in which they came.
pub fn sort_ranked<T: Ranked>(items: Vec<T>) -> (sorted: Vec<T>)
    ensures
        sorted@ == stable_sort(items@, rank_order::<T>()),
{
    let ghost le = rank_order::<T>();
    let ghost all = items@;
    let mut rest = items;
    let mut sorted: Vec<T> = Vec::new();
    assert(all.take(0) =~= Seq::<T>::empty());
    assert(all.skip(0) =~= all);
    while rest.len() > 0
        invariant
            le == rank_order::<T>(),
            rest@.len() <= all.len(),
            rest@ == all.skip((all.len() - rest@.len()) as int),
            sorted@ == stable_sort(all.take((all.len() - rest@.len()) as int), le),
        decreases rest.len(),
    {
        let ghost done = (all.len() - rest@.len()) as int;
        let item = rest.remove(0);
        assert(item == all[done]);
        assert(rest@ =~= all.skip(done + 1));
        let at = insertion_point(&sorted, &item);
        assert(all.take(done + 1).drop_last() =~= all.take(done));
        assert(all.take(done + 1).last() == item);
        sorted.insert(at, item);
        assert(sorted@ =~= stable_sort(all.take(done + 1), le));
    }
    assert(all.take(all.len() as int) =~= all);
    sorted
}

impl Ranked for String {
    open spec fn ranks_before(&self, other: &Self) -> bool {
        text_le(self@, other@)
    }

    fn comes_before(&self, other: &Self) -> (le: bool) {
        text_precedes(self.as_str(), other.as_str())
    }
}

} // verus!
