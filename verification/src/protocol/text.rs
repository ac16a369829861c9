use vstd::prelude::*;

verus! {

/// The UTF-16 code units of one character: itself below U+10000, a surrogate pair above.
pub open spec fn utf16_of_char(c: char) -> Seq<u16> {
    let v = c as u32;
    if v < 0x10000 {
        seq![v as u16]
    } else {
        seq![(0xD800 + (v - 0x10000) / 0x400) as u16, (0xDC00 + (v - 0x10000) % 0x400) as u16]
    }
}

/// The UTF-16 encoding of a text: the code units of its characters, in order.
pub open spec fn utf16_encoding(s: Seq<char>) -> Seq<u16>
    decreases s.len(),
{
    if s.len() == 0 {
        Seq::empty()
    } else {
        utf16_encoding(s.drop_last()) + utf16_of_char(s.last())
    }
}

/// Encodes a text as UTF-16 code units.
pub fn utf16_units(s: &str) -> (units: Vec<u16>)
    ensures
        units@ == utf16_encoding(s@),
{
    broadcast use vstd::string::group_string_axioms;
    let mut units: Vec<u16> = Vec::new();
    for c in it: s.chars()
        invariant
            it.seq() == s@,
            units@ == utf16_encoding(s@.take(it.index())),
    {
        proof {
            vstd::utf8::char_is_scalar(c);
            assert(s@.take(it.index() + 1).drop_last() =~= s@.take(it.index()));
            assert(s@.take(it.index() + 1).last() == c);
        }
        let v: u32 = c as u32;
        if v < 0x10000 {
            units.push(v as u16);
        } else {
            units.push((0xD800 + (v - 0x10000) / 0x400) as u16);
            units.push((0xDC00 + (v - 0x10000) % 0x400) as u16);
        }
        assert(units@ =~= utf16_encoding(s@.take(it.index())) + utf16_of_char(c));
    }
    assert(s@.take(s@.len() as int) =~= s@);
    units
}

/// What `String::from_utf8_lossy` returns for bytes that are not well-formed UTF-8.
pub uninterp spec fn utf8_replaced(bytes: Seq<u8>) -> Seq<char>;

/// What `String::from_utf16_lossy` returns for code units that are not well-formed UTF-16.
pub uninterp spec fn utf16_replaced(units: Seq<u16>) -> Seq<char>;

/// Lossy UTF-8 decoding: the text that well-formed bytes hold, and otherwise that text
/// with every invalid sequence replaced.
pub open spec fn lossy_utf8(bytes: Seq<u8>) -> Seq<char> {
    if vstd::utf8::valid_utf8(bytes) {
        vstd::utf8::decode_utf8(bytes)
    } else {
        utf8_replaced(bytes)
    }
}

/// Whether the code units are the UTF-16 encoding of some text.
pub open spec fn is_utf16(units: Seq<u16>) -> bool {
    exists|s: Seq<char>| #[trigger] utf16_encoding(s) == units
}

/// Lossy UTF-16 decoding: the text that well-formed code units encode, and otherwise
/// that text with every unpaired surrogate replaced.
pub open spec fn lossy_utf16(units: Seq<u16>) -> Seq<char> {
    if is_utf16(units) {
        choose|s: Seq<char>| #[trigger] utf16_encoding(s) == units
    } else {
        utf16_replaced(units)
    }
}

/// `String::from_utf8_lossy`: on well-formed UTF-8 the decoded text; on anything else
/// whatever the standard library makes of it.
#[verifier::external_body]
pub(crate) fn decode_utf8_lossy(bytes: &[u8]) -> (text: String)
    ensures
        vstd::utf8::valid_utf8(bytes@) ==> text@ == vstd::utf8::decode_utf8(bytes@),
        !vstd::utf8::valid_utf8(bytes@) ==> text@ == utf8_replaced(bytes@),
{
    String::from_utf8_lossy(bytes).into_owned()
}

/// `String::from_utf16_lossy`: on the UTF-16 encoding of a text that text; on anything
/// else whatever the standard library makes of it.
#[verifier::external_body]
pub(crate) fn decode_utf16_lossy(units: &[u16]) -> (text: String)
    ensures
        forall|s: Seq<char>| #[trigger] utf16_encoding(s) == units@ ==> text@ == s,
        !is_utf16(units@) ==> text@ == utf16_replaced(units@),
{
    String::from_utf16_lossy(units)
}

/// A text has at most two code units for each of its characters, and at least one.
pub proof fn lemma_utf16_len(s: Seq<char>)
    ensures
        s.len() <= utf16_encoding(s).len() <= 2 * s.len(),
    decreases s.len(),
{
    if s.len() > 0 {
        lemma_utf16_len(s.drop_last());
    }
}

/// Two characters with the same code units are the same character.
pub proof fn lemma_utf16_char_injective(a: char, b: char)
    requires
        utf16_of_char(a) == utf16_of_char(b),
    ensures
        a == b,
{
    vstd::utf8::char_is_scalar(a);
    vstd::utf8::char_is_scalar(b);
    let x = a as u32;
    let y = b as u32;
    let ua = utf16_of_char(a);
    let ub = utf16_of_char(b);
    assert(ua.len() == ub.len());
    if x < 0x10000 {
        assert(ua.len() == 1);
        assert(y < 0x10000);
        assert(ua[0] == x as u16);
        assert(ub[0] == y as u16);
        assert(x == y);
    } else {
        assert(ua.len() == 2);
        assert(y >= 0x10000);
        assert(ua[0] == (0xD800 + (x - 0x10000) / 0x400) as u16);
        assert(ub[0] == (0xD800 + (y - 0x10000) / 0x400) as u16);
        assert(ua[1] == (0xDC00 + (x - 0x10000) % 0x400) as u16);
        assert(ub[1] == (0xDC00 + (y - 0x10000) % 0x400) as u16);
        assert((x - 0x10000) / 0x400 == (y - 0x10000) / 0x400);
        assert((x - 0x10000) % 0x400 == (y - 0x10000) % 0x400);
        assert(x == y);
    }
    vstd::utf8::char_u32_cast(a, x);
    vstd::utf8::char_u32_cast(b, y);
}

/// The last code unit of a character says how many code units the character has.
proof fn lemma_utf16_last_unit(c: char)
    ensures
        utf16_of_char(c).len() == 2 <==> 0xDC00 <= utf16_of_char(c).last() <= 0xDFFF,
        utf16_of_char(c).len() == 1 || utf16_of_char(c).len() == 2,
{
    vstd::utf8::char_is_scalar(c);
}

/// Two texts with the same UTF-16 encoding are the same text.
pub proof fn lemma_utf16_injective(a: Seq<char>, b: Seq<char>)
    requires
        utf16_encoding(a) == utf16_encoding(b),
    ensures
        a == b,
    decreases a.len(),
{
    lemma_utf16_len(a);
    lemma_utf16_len(b);
    if a.len() == 0 || b.len() == 0 {
        assert(a =~= b);
    } else {
        let ea = utf16_encoding(a.drop_last());
        let eb = utf16_encoding(b.drop_last());
        let ca = utf16_of_char(a.last());
        let cb = utf16_of_char(b.last());
        let whole = utf16_encoding(a);
        lemma_utf16_last_unit(a.last());
        lemma_utf16_last_unit(b.last());
        assert(whole == ea + ca);
        assert(whole == eb + cb);
        assert(whole.last() == ca.last());
        assert(whole.last() == cb.last());
        assert(ca.len() == cb.len());
        assert(ea.len() == eb.len());
        assert(ca =~= whole.skip(ea.len() as int));
        assert(cb =~= whole.skip(eb.len() as int));
        assert(ea =~= whole.take(ea.len() as int));
        assert(eb =~= whole.take(eb.len() as int));
        lemma_utf16_char_injective(a.last(), b.last());
        lemma_utf16_injective(a.drop_last(), b.drop_last());
        assert(a =~= a.drop_last().push(a.last()));
        assert(b =~= b.drop_last().push(b.last()));
    }
}

/// Lossy decoding gives back a text from its UTF-16 encoding.
pub proof fn lemma_lossy_utf16_of_encoding(s: Seq<char>)
    ensures
        lossy_utf16(utf16_encoding(s)) == s,
{
    let units = utf16_encoding(s);
    assert(is_utf16(units));
    let t = choose|t: Seq<char>| #[trigger] utf16_encoding(t) == units;
    lemma_utf16_injective(t, s);
}

/// Lossy decoding gives back a text from its UTF-8 encoding.
pub proof fn lemma_lossy_utf8_of_encoding(s: Seq<char>)
    ensures
        lossy_utf8(vstd::utf8::encode_utf8(s)) == s,
{
    vstd::utf8::encode_utf8_valid_utf8(s);
    vstd::utf8::encode_utf8_decode_utf8(s);
}

} // verus!
