use vstd::prelude::*;
use crate::protocol::encoding::{
    lemma_const_sizes, lemma_tag_values, tag_of, ConstSizedEncode, Decode, DynSizedEncode, Encode, EncodingTag, RoundTrip,
    StringUtf16, StringUtf8, Tagged, UnknownTag,
};
use crate::protocol::stream::{eof, ByteStream, DecodeError, EncodeError, Field};

verus! {

/// What a tagged primitive value holds: the mathematical content of a
/// [`WitcherPacketData`].
pub enum PacketValue {
    Int8(i8),
    Int16(i16),
    Int32(i32),
    UInt32(u32),
    Int64(i64),
    StringUTF8(Seq<char>),
    StringUTF16(Seq<char>),
    /// Two bytes found where a tag was expected.
    Unknown(u8, u8),
}

/// One element of a packet's payload.
#[derive(Debug, PartialEq, Eq, Hash)]
pub enum WitcherPacketData {
    Int8(Tagged<i8>),
    Int16(Tagged<i16>),
    Int32(Tagged<i32>),
    UInt32(Tagged<u32>),
    Int64(Tagged<i64>),
    StringUTF8(Tagged<StringUtf8>),
    StringUTF16(Tagged<StringUtf16>),
    /// for cases where the data tag was not recognized
    Unknown(UnknownTag),
}

impl View for WitcherPacketData {
    type V = PacketValue;

    open spec fn view(&self) -> PacketValue {
        match self {
            WitcherPacketData::Int8(d) => PacketValue::Int8(d@),
            WitcherPacketData::Int16(d) => PacketValue::Int16(d@),
            WitcherPacketData::Int32(d) => PacketValue::Int32(d@),
            WitcherPacketData::UInt32(d) => PacketValue::UInt32(d@),
            WitcherPacketData::Int64(d) => PacketValue::Int64(d@),
            WitcherPacketData::StringUTF8(d) => PacketValue::StringUTF8(d@),
            WitcherPacketData::StringUTF16(d) => PacketValue::StringUTF16(d@),
            WitcherPacketData::Unknown(d) => PacketValue::Unknown(d@.0, d@.1),
        }
    }
}

/// Whether two bytes are the type tag of one of the seven known kinds of value.
pub open spec fn is_known_tag(a: u8, b: u8) -> bool {
    let tag = seq![a, b];
    ||| tag == tag_of::<i8>()
    ||| tag == tag_of::<i16>()
    ||| tag == tag_of::<i32>()
    ||| tag == tag_of::<u32>()
    ||| tag == tag_of::<i64>()
    ||| tag == tag_of::<StringUtf8>()
    ||| tag == tag_of::<StringUtf16>()
}

impl PacketValue {
    /// Whether the value is one that decoding can give back: every value but an
    /// `Unknown` whose two bytes are a known tag, which on the wire would announce a
    /// value of that kind.
    pub open spec fn unambiguous(self) -> bool {
        match self {
            PacketValue::Unknown(a, b) => !is_known_tag(a, b),
            _ => true,
        }
    }
}

impl WitcherPacketData {
    pub fn new_int8(n: i8) -> (d: Self)
        ensures
            d@ == PacketValue::Int8(n),
    {
        Self::Int8(Tagged::new(n))
    }

    pub fn new_int16(n: i16) -> (d: Self)
        ensures
            d@ == PacketValue::Int16(n),
    {
        Self::Int16(Tagged::new(n))
    }

    pub fn new_int32(n: i32) -> (d: Self)
        ensures
            d@ == PacketValue::Int32(n),
    {
        Self::Int32(Tagged::new(n))
    }

    pub fn new_uint32(n: u32) -> (d: Self)
        ensures
            d@ == PacketValue::UInt32(n),
    {
        Self::UInt32(Tagged::new(n))
    }

    pub fn new_int64(n: i64) -> (d: Self)
        ensures
            d@ == PacketValue::Int64(n),
    {
        Self::Int64(Tagged::new(n))
    }

    pub fn new_string_utf8(s: &str) -> (d: Self)
        ensures
            d@ == PacketValue::StringUTF8(s@),
    {
        Self::StringUTF8(Tagged::new(StringUtf8(s.to_owned())))
    }

    pub fn new_string_utf16(s: &str) -> (d: Self)
        ensures
            d@ == PacketValue::StringUTF16(s@),
    {
        Self::StringUTF16(Tagged::new(StringUtf16(s.to_owned())))
    }

    pub fn new_unknown(t: UnknownTag) -> (d: Self)
        ensures
            d@ == PacketValue::Unknown(t@.0, t@.1),
    {
        Self::Unknown(t)
    }

    /// Whether two values hold the same thing.
    pub fn same_as(&self, other: &Self) -> (same: bool)
        ensures
            same == (self@ == other@),
    {
        match (self, other) {
            (WitcherPacketData::Int8(a), WitcherPacketData::Int8(b)) => *a.inner() == *b.inner(),
            (WitcherPacketData::Int16(a), WitcherPacketData::Int16(b)) => *a.inner()
                == *b.inner(),
            (WitcherPacketData::Int32(a), WitcherPacketData::Int32(b)) => *a.inner()
                == *b.inner(),
            (WitcherPacketData::UInt32(a), WitcherPacketData::UInt32(b)) => *a.inner()
                == *b.inner(),
            (WitcherPacketData::Int64(a), WitcherPacketData::Int64(b)) => *a.inner()
                == *b.inner(),
            (WitcherPacketData::StringUTF8(a), WitcherPacketData::StringUTF8(b)) => a.inner().0
                == b.inner().0,
            (WitcherPacketData::StringUTF16(a), WitcherPacketData::StringUTF16(b)) => a.inner().0
                == b.inner().0,
            (WitcherPacketData::Unknown(a), WitcherPacketData::Unknown(b)) => a.0[0] == b.0[0]
                && a.0[1] == b.0[1],
            _ => false,
        }
    }
}

impl Clone for WitcherPacketData {
    fn clone(&self) -> (d: Self)
        ensures
            d@ == self@,
    {
        match self {
            WitcherPacketData::Int8(a) => WitcherPacketData::Int8(Tagged::new(*a.inner())),
            WitcherPacketData::Int16(a) => WitcherPacketData::Int16(Tagged::new(*a.inner())),
            WitcherPacketData::Int32(a) => WitcherPacketData::Int32(Tagged::new(*a.inner())),
            WitcherPacketData::UInt32(a) => WitcherPacketData::UInt32(Tagged::new(*a.inner())),
            WitcherPacketData::Int64(a) => WitcherPacketData::Int64(Tagged::new(*a.inner())),
            WitcherPacketData::StringUTF8(a) => WitcherPacketData::StringUTF8(
                Tagged::new(StringUtf8(a.inner().0.clone())),
            ),
            WitcherPacketData::StringUTF16(a) => WitcherPacketData::StringUTF16(
                Tagged::new(StringUtf16(a.inner().0.clone())),
            ),
            WitcherPacketData::Unknown(a) => WitcherPacketData::Unknown(*a),
        }
    }
}

/// The wire form of a value: its tag and then its content, and for an `Unknown` its
/// two bytes alone.
#[verifier::opaque]
pub open spec fn value_wire(v: PacketValue) -> Result<Seq<u8>, EncodeError> {
    match v {
        PacketValue::Int8(d) => Tagged::<i8>::encoded(d),
        PacketValue::Int16(d) => Tagged::<i16>::encoded(d),
        PacketValue::Int32(d) => Tagged::<i32>::encoded(d),
        PacketValue::UInt32(d) => Tagged::<u32>::encoded(d),
        PacketValue::Int64(d) => Tagged::<i64>::encoded(d),
        PacketValue::StringUTF8(d) => Tagged::<StringUtf8>::encoded(d),
        PacketValue::StringUTF16(d) => Tagged::<StringUtf16>::encoded(d),
        PacketValue::Unknown(a, b) => UnknownTag::encoded((a, b)),
    }
}

/// The number of bytes that the wire form of a value takes.
#[verifier::opaque]
pub open spec fn value_size(v: PacketValue) -> nat {
    match v {
        PacketValue::Int8(d) => Tagged::<i8>::wire_size(d),
        PacketValue::Int16(d) => Tagged::<i16>::wire_size(d),
        PacketValue::Int32(d) => Tagged::<i32>::wire_size(d),
        PacketValue::UInt32(d) => Tagged::<u32>::wire_size(d),
        PacketValue::Int64(d) => Tagged::<i64>::wire_size(d),
        PacketValue::StringUTF8(d) => Tagged::<StringUtf8>::wire_size(d),
        PacketValue::StringUTF16(d) => Tagged::<StringUtf16>::wire_size(d),
        PacketValue::Unknown(a, b) => UnknownTag::wire_size((a, b)),
    }
}

/// The value at the start of `bytes` and the number of bytes it takes: the kind that the
/// first two bytes announce, read from what follows them, or an `Unknown` of those two
/// bytes where they are no known tag.
#[verifier::opaque]
pub open spec fn parse_value(bytes: Seq<u8>) -> Result<(PacketValue, nat), DecodeError> {
    if bytes.len() < 2 {
        Err(eof(Field::Tag))
    } else {
        let tag = bytes.take(2);
        let body = bytes.skip(2);
        if tag == tag_of::<i8>() {
            after_tag(i8::parse(body), |d: i8| PacketValue::Int8(d))
        } else if tag == tag_of::<i16>() {
            after_tag(i16::parse(body), |d: i16| PacketValue::Int16(d))
        } else if tag == tag_of::<i32>() {
            after_tag(i32::parse(body), |d: i32| PacketValue::Int32(d))
        } else if tag == tag_of::<u32>() {
            after_tag(u32::parse(body), |d: u32| PacketValue::UInt32(d))
        } else if tag == tag_of::<i64>() {
            after_tag(i64::parse(body), |d: i64| PacketValue::Int64(d))
        } else if tag == tag_of::<StringUtf8>() {
            after_tag(StringUtf8::parse(body), |d: Seq<char>| PacketValue::StringUTF8(d))
        } else if tag == tag_of::<StringUtf16>() {
            after_tag(StringUtf16::parse(body), |d: Seq<char>| PacketValue::StringUTF16(d))
        } else {
            Ok((PacketValue::Unknown(bytes[0], bytes[1]), 2))
        }
    }
}

impl Encode for WitcherPacketData {
    open spec fn encoded(v: PacketValue) -> Result<Seq<u8>, EncodeError> {
        value_wire(v)
    }

    fn encode_into(&self, stream: &mut ByteStream) -> (r: Result<(), EncodeError>) {
        reveal(value_wire);
        match self {
            WitcherPacketData::Int8(d) => d.encode_into(stream),
            WitcherPacketData::Int16(d) => d.encode_into(stream),
            WitcherPacketData::Int32(d) => d.encode_into(stream),
            WitcherPacketData::UInt32(d) => d.encode_into(stream),
            WitcherPacketData::Int64(d) => d.encode_into(stream),
            WitcherPacketData::StringUTF8(d) => d.encode_into(stream),
            WitcherPacketData::StringUTF16(d) => d.encode_into(stream),
            WitcherPacketData::Unknown(d) => d.encode_into(stream),
        }
    }
}

impl DynSizedEncode for WitcherPacketData {
    open spec fn wire_size(v: PacketValue) -> nat {
        value_size(v)
    }

    fn encoded_size(&self) -> (n: usize) {
        reveal(value_size);
        match self {
            WitcherPacketData::Int8(d) => d.encoded_size(),
            WitcherPacketData::Int16(d) => d.encoded_size(),
            WitcherPacketData::Int32(d) => d.encoded_size(),
            WitcherPacketData::UInt32(d) => d.encoded_size(),
            WitcherPacketData::Int64(d) => d.encoded_size(),
            WitcherPacketData::StringUTF8(d) => d.encoded_size(),
            WitcherPacketData::StringUTF16(d) => d.encoded_size(),
            WitcherPacketData::Unknown(d) => d.encoded_size(),
        }
    }
}

/// The value that `parsed` holds, wrapped by `wrap`, and two more bytes for the tag.
pub open spec fn after_tag<T>(
    parsed: Result<(T, nat), DecodeError>,
    wrap: spec_fn(T) -> PacketValue,
) -> Result<(PacketValue, nat), DecodeError> {
    match parsed {
        Ok((v, n)) => Ok((wrap(v), n + 2)),
        Err(e) => Err(e),
    }
}

impl Decode for WitcherPacketData {
    open spec fn parse(bytes: Seq<u8>) -> Result<(PacketValue, nat), DecodeError> {
        parse_value(bytes)
    }

    fn decode_at(bytes: &[u8], at: usize) -> (r: Result<(Self, usize), DecodeError>) {
        reveal(parse_value);
        if bytes.len() - at < 2 {
            return Err(DecodeError::eof(Field::Tag));
        }
        let tag: [u8; 2] = [bytes[at], bytes[at + 1]];
        let ghost found = bytes@.skip(at as int).take(2);
        assert(found =~= tag@);
        assert(bytes@.skip(at as int).skip(2) =~= bytes@.skip(at + 2));
        if tag_is(&tag, &i8::ENCODING_TAG) {
            match i8::decode_at(bytes, at + 2) {
                Ok((d, n)) => Ok((WitcherPacketData::new_int8(d), n + 2)),
                Err(e) => Err(e),
            }
        } else if tag_is(&tag, &i16::ENCODING_TAG) {
            match i16::decode_at(bytes, at + 2) {
                Ok((d, n)) => Ok((WitcherPacketData::new_int16(d), n + 2)),
                Err(e) => Err(e),
            }
        } else if tag_is(&tag, &i32::ENCODING_TAG) {
            match i32::decode_at(bytes, at + 2) {
                Ok((d, n)) => Ok((WitcherPacketData::new_int32(d), n + 2)),
                Err(e) => Err(e),
            }
        } else if tag_is(&tag, &u32::ENCODING_TAG) {
            match u32::decode_at(bytes, at + 2) {
                Ok((d, n)) => Ok((WitcherPacketData::new_uint32(d), n + 2)),
                Err(e) => Err(e),
            }
        } else if tag_is(&tag, &i64::ENCODING_TAG) {
            match i64::decode_at(bytes, at + 2) {
                Ok((d, n)) => Ok((WitcherPacketData::new_int64(d), n + 2)),
                Err(e) => Err(e),
            }
        } else if tag_is(&tag, &StringUtf8::ENCODING_TAG) {
            match StringUtf8::decode_at(bytes, at + 2) {
                Ok((d, n)) => Ok((WitcherPacketData::StringUTF8(Tagged::new(d)), n + 2)),
                Err(e) => Err(e),
            }
        } else if tag_is(&tag, &StringUtf16::ENCODING_TAG) {
            match StringUtf16::decode_at(bytes, at + 2) {
                Ok((d, n)) => Ok((WitcherPacketData::StringUTF16(Tagged::new(d)), n + 2)),
                Err(e) => Err(e),
            }
        } else {
            Ok((WitcherPacketData::new_unknown(UnknownTag(tag)), 2))
        }
    }
}

/// Whether two tags are the same two bytes.
fn tag_is(found: &[u8; 2], tag: &[u8; 2]) -> (same: bool)
    ensures
        same == (found@ == tag@),
{
    let same = found[0] == tag[0] && found[1] == tag[1];
    assert(same == (found@ =~= tag@));
    same
}

/// The seven known tags are seven different pairs of bytes.
pub proof fn lemma_tags_distinct()
    ensures
        tag_of::<i8>() =~= seq![0x81u8, 0x08u8],
        tag_of::<i16>() =~= seq![0x81u8, 0x16u8],
        tag_of::<i32>() =~= seq![0x81u8, 0x32u8],
        tag_of::<u32>() =~= seq![0x71u8, 0x32u8],
        tag_of::<i64>() =~= seq![0x81u8, 0x64u8],
        tag_of::<StringUtf8>() =~= seq![0xACu8, 0x08u8],
        tag_of::<StringUtf16>() =~= seq![0x9Cu8, 0x16u8],
        is_known_tag(0x81, 0x08),
        is_known_tag(0x81, 0x16),
        is_known_tag(0x81, 0x32),
        is_known_tag(0x71, 0x32),
        is_known_tag(0x81, 0x64),
        is_known_tag(0xAC, 0x08),
        is_known_tag(0x9C, 0x16),
        forall|a: u8, b: u8|
            is_known_tag(a, b) <==> {
                ||| (a == 0x81 && (b == 0x08 || b == 0x16 || b == 0x32 || b == 0x64))
                ||| (a == 0x71 && b == 0x32)
                ||| (a == 0xAC && b == 0x08)
                ||| (a == 0x9C && b == 0x16)
            },
{
    lemma_tag_values();
    assert forall|a: u8, b: u8|
        is_known_tag(a, b) <==> {
            ||| (a == 0x81 && (b == 0x08 || b == 0x16 || b == 0x32 || b == 0x64))
            ||| (a == 0x71 && b == 0x32)
            ||| (a == 0xAC && b == 0x08)
            ||| (a == 0x9C && b == 0x16)
        } by {
        let tag = seq![a, b];
        assert(tag[0] == a && tag[1] == b);
        if a == 0x81 && b == 0x08 {
            assert(tag =~= tag_of::<i8>());
        }
        if a == 0x81 && b == 0x16 {
            assert(tag =~= tag_of::<i16>());
        }
        if a == 0x81 && b == 0x32 {
            assert(tag =~= tag_of::<i32>());
        }
        if a == 0x71 && b == 0x32 {
            assert(tag =~= tag_of::<u32>());
        }
        if a == 0x81 && b == 0x64 {
            assert(tag =~= tag_of::<i64>());
        }
        if a == 0xAC && b == 0x08 {
            assert(tag =~= tag_of::<StringUtf8>());
        }
        if a == 0x9C && b == 0x16 {
            assert(tag =~= tag_of::<StringUtf16>());
        }
    }
}

/// What decoding finds behind a tag: which kind it reads for which two bytes.
proof fn lemma_parse_by_tag(bytes: Seq<u8>)
    requires
        bytes.len() >= 2,
    ensures
        (bytes[0] == 0x81 && bytes[1] == 0x08) ==> WitcherPacketData::parse(bytes) == after_tag(
            i8::parse(bytes.skip(2)),
            |d: i8| PacketValue::Int8(d),
        ),
        (bytes[0] == 0x81 && bytes[1] == 0x16) ==> WitcherPacketData::parse(bytes) == after_tag(
            i16::parse(bytes.skip(2)),
            |d: i16| PacketValue::Int16(d),
        ),
        (bytes[0] == 0x81 && bytes[1] == 0x32) ==> WitcherPacketData::parse(bytes) == after_tag(
            i32::parse(bytes.skip(2)),
            |d: i32| PacketValue::Int32(d),
        ),
        (bytes[0] == 0x71 && bytes[1] == 0x32) ==> WitcherPacketData::parse(bytes) == after_tag(
            u32::parse(bytes.skip(2)),
            |d: u32| PacketValue::UInt32(d),
        ),
        (bytes[0] == 0x81 && bytes[1] == 0x64) ==> WitcherPacketData::parse(bytes) == after_tag(
            i64::parse(bytes.skip(2)),
            |d: i64| PacketValue::Int64(d),
        ),
        (bytes[0] == 0xAC && bytes[1] == 0x08) ==> WitcherPacketData::parse(bytes) == after_tag(
            StringUtf8::parse(bytes.skip(2)),
            |d: Seq<char>| PacketValue::StringUTF8(d),
        ),
        (bytes[0] == 0x9C && bytes[1] == 0x16) ==> WitcherPacketData::parse(bytes) == after_tag(
            StringUtf16::parse(bytes.skip(2)),
            |d: Seq<char>| PacketValue::StringUTF16(d),
        ),
        !is_known_tag(bytes[0], bytes[1]) ==> WitcherPacketData::parse(bytes) == Ok::<
            (PacketValue, nat),
            DecodeError,
        >((PacketValue::Unknown(bytes[0], bytes[1]), 2)),
{
    reveal(parse_value);
    lemma_tags_distinct();
    let tag = bytes.take(2);
    assert(tag =~= seq![bytes[0], bytes[1]]);
    assert(tag[0] == bytes[0] && tag[1] == bytes[1]);
}

proof fn lemma_round_trip_int8(d: i8, rest: Seq<u8>)
    requires
        value_wire(PacketValue::Int8(d)) is Ok,
    ensures
        parse_value(value_wire(PacketValue::Int8(d))->Ok_0 + rest) == Ok::<
            (PacketValue, nat),
            DecodeError,
        >((PacketValue::Int8(d), value_wire(PacketValue::Int8(d))->Ok_0.len())),
        value_wire(PacketValue::Int8(d))->Ok_0.len() == value_size(
            PacketValue::Int8(d),
        ),
{
    reveal(value_wire);
    reveal(value_size);
    let inner = i8::encoded(d)->Ok_0;
    let bytes = Tagged::<i8>::encoded(d)->Ok_0 + rest;
    lemma_tags_distinct();
    i8::lemma_round_trip(d, rest);
    assert(bytes =~= tag_of::<i8>() + (inner + rest));
    assert(bytes[0] == tag_of::<i8>()[0] && bytes[1] == tag_of::<i8>()[1]);
    assert(bytes.skip(2) =~= inner + rest);
    lemma_parse_by_tag(bytes);
}

proof fn lemma_round_trip_int16(d: i16, rest: Seq<u8>)
    requires
        value_wire(PacketValue::Int16(d)) is Ok,
    ensures
        parse_value(value_wire(PacketValue::Int16(d))->Ok_0 + rest) == Ok::<
            (PacketValue, nat),
            DecodeError,
        >((PacketValue::Int16(d), value_wire(PacketValue::Int16(d))->Ok_0.len())),
        value_wire(PacketValue::Int16(d))->Ok_0.len() == value_size(
            PacketValue::Int16(d),
        ),
{
    reveal(value_wire);
    reveal(value_size);
    let inner = i16::encoded(d)->Ok_0;
    let bytes = Tagged::<i16>::encoded(d)->Ok_0 + rest;
    lemma_tags_distinct();
    i16::lemma_round_trip(d, rest);
    assert(bytes =~= tag_of::<i16>() + (inner + rest));
    assert(bytes[0] == tag_of::<i16>()[0] && bytes[1] == tag_of::<i16>()[1]);
    assert(bytes.skip(2) =~= inner + rest);
    lemma_parse_by_tag(bytes);
}

proof fn lemma_round_trip_int32(d: i32, rest: Seq<u8>)
    requires
        value_wire(PacketValue::Int32(d)) is Ok,
    ensures
        parse_value(value_wire(PacketValue::Int32(d))->Ok_0 + rest) == Ok::<
            (PacketValue, nat),
            DecodeError,
        >((PacketValue::Int32(d), value_wire(PacketValue::Int32(d))->Ok_0.len())),
        value_wire(PacketValue::Int32(d))->Ok_0.len() == value_size(
            PacketValue::Int32(d),
        ),
{
    reveal(value_wire);
    reveal(value_size);
    let inner = i32::encoded(d)->Ok_0;
    let bytes = Tagged::<i32>::encoded(d)->Ok_0 + rest;
    lemma_tags_distinct();
    i32::lemma_round_trip(d, rest);
    assert(bytes =~= tag_of::<i32>() + (inner + rest));
    assert(bytes[0] == tag_of::<i32>()[0] && bytes[1] == tag_of::<i32>()[1]);
    assert(bytes.skip(2) =~= inner + rest);
    lemma_parse_by_tag(bytes);
}

proof fn lemma_round_trip_uint32(d: u32, rest: Seq<u8>)
    requires
        value_wire(PacketValue::UInt32(d)) is Ok,
    ensures
        parse_value(value_wire(PacketValue::UInt32(d))->Ok_0 + rest) == Ok::<
            (PacketValue, nat),
            DecodeError,
        >((PacketValue::UInt32(d), value_wire(PacketValue::UInt32(d))->Ok_0.len())),
        value_wire(PacketValue::UInt32(d))->Ok_0.len() == value_size(
            PacketValue::UInt32(d),
        ),
{
    reveal(value_wire);
    reveal(value_size);
    let inner = u32::encoded(d)->Ok_0;
    let bytes = Tagged::<u32>::encoded(d)->Ok_0 + rest;
    lemma_tags_distinct();
    u32::lemma_round_trip(d, rest);
    assert(bytes =~= tag_of::<u32>() + (inner + rest));
    assert(bytes[0] == tag_of::<u32>()[0] && bytes[1] == tag_of::<u32>()[1]);
    assert(bytes.skip(2) =~= inner + rest);
    lemma_parse_by_tag(bytes);
}

proof fn lemma_round_trip_int64(d: i64, rest: Seq<u8>)
    requires
        value_wire(PacketValue::Int64(d)) is Ok,
    ensures
        parse_value(value_wire(PacketValue::Int64(d))->Ok_0 + rest) == Ok::<
            (PacketValue, nat),
            DecodeError,
        >((PacketValue::Int64(d), value_wire(PacketValue::Int64(d))->Ok_0.len())),
        value_wire(PacketValue::Int64(d))->Ok_0.len() == value_size(
            PacketValue::Int64(d),
        ),
{
    reveal(value_wire);
    reveal(value_size);
    let inner = i64::encoded(d)->Ok_0;
    let bytes = Tagged::<i64>::encoded(d)->Ok_0 + rest;
    lemma_tags_distinct();
    i64::lemma_round_trip(d, rest);
    assert(bytes =~= tag_of::<i64>() + (inner + rest));
    assert(bytes[0] == tag_of::<i64>()[0] && bytes[1] == tag_of::<i64>()[1]);
    assert(bytes.skip(2) =~= inner + rest);
    lemma_parse_by_tag(bytes);
}

proof fn lemma_round_trip_stringutf8(d: Seq<char>, rest: Seq<u8>)
    requires
        value_wire(PacketValue::StringUTF8(d)) is Ok,
    ensures
        parse_value(value_wire(PacketValue::StringUTF8(d))->Ok_0 + rest) == Ok::<
            (PacketValue, nat),
            DecodeError,
        >((PacketValue::StringUTF8(d), value_wire(PacketValue::StringUTF8(d))->Ok_0.len())),
        value_wire(PacketValue::StringUTF8(d))->Ok_0.len() == value_size(
            PacketValue::StringUTF8(d),
        ),
{
    reveal(value_wire);
    reveal(value_size);
    let inner = StringUtf8::encoded(d)->Ok_0;
    let bytes = Tagged::<StringUtf8>::encoded(d)->Ok_0 + rest;
    lemma_tags_distinct();
    StringUtf8::lemma_round_trip(d, rest);
    assert(bytes =~= tag_of::<StringUtf8>() + (inner + rest));
    assert(bytes[0] == tag_of::<StringUtf8>()[0] && bytes[1] == tag_of::<StringUtf8>()[1]);
    assert(bytes.skip(2) =~= inner + rest);
    lemma_parse_by_tag(bytes);
}

proof fn lemma_round_trip_stringutf16(d: Seq<char>, rest: Seq<u8>)
    requires
        value_wire(PacketValue::StringUTF16(d)) is Ok,
    ensures
        parse_value(value_wire(PacketValue::StringUTF16(d))->Ok_0 + rest) == Ok::<
            (PacketValue, nat),
            DecodeError,
        >((PacketValue::StringUTF16(d), value_wire(PacketValue::StringUTF16(d))->Ok_0.len())),
        value_wire(PacketValue::StringUTF16(d))->Ok_0.len() == value_size(
            PacketValue::StringUTF16(d),
        ),
{
    reveal(value_wire);
    reveal(value_size);
    let inner = StringUtf16::encoded(d)->Ok_0;
    let bytes = Tagged::<StringUtf16>::encoded(d)->Ok_0 + rest;
    lemma_tags_distinct();
    StringUtf16::lemma_round_trip(d, rest);
    assert(bytes =~= tag_of::<StringUtf16>() + (inner + rest));
    assert(bytes[0] == tag_of::<StringUtf16>()[0] && bytes[1] == tag_of::<StringUtf16>()[1]);
    assert(bytes.skip(2) =~= inner + rest);
    lemma_parse_by_tag(bytes);
}

/// A value that has a wire form, and that decoding can give back, is what decoding
/// finds at the start of its wire form, whatever follows; decoding takes exactly the
/// bytes of the wire form, and they are as many as the value's size says.
pub proof fn lemma_value_round_trip(v: PacketValue, rest: Seq<u8>)
    requires
        WitcherPacketData::encoded(v) is Ok,
        v.unambiguous(),
    ensures
        WitcherPacketData::parse(WitcherPacketData::encoded(v)->Ok_0 + rest) == Ok::<
            (PacketValue, nat),
            DecodeError,
        >((v, WitcherPacketData::encoded(v)->Ok_0.len())),
        WitcherPacketData::encoded(v)->Ok_0.len() == WitcherPacketData::wire_size(v),
{
    match v {
        PacketValue::Int8(d) => lemma_round_trip_int8(d, rest),
        PacketValue::Int16(d) => lemma_round_trip_int16(d, rest),
        PacketValue::Int32(d) => lemma_round_trip_int32(d, rest),
        PacketValue::UInt32(d) => lemma_round_trip_uint32(d, rest),
        PacketValue::Int64(d) => lemma_round_trip_int64(d, rest),
        PacketValue::StringUTF8(d) => lemma_round_trip_stringutf8(d, rest),
        PacketValue::StringUTF16(d) => lemma_round_trip_stringutf16(d, rest),
        PacketValue::Unknown(a, b) => lemma_unknown_tag_preserved(a, b, rest),
    }
}

/// Two bytes that are no known tag decode, whatever follows them, to the `Unknown`
/// value that holds them, and that value encodes back to the same two bytes.
pub proof fn lemma_unknown_tag_preserved(a: u8, b: u8, rest: Seq<u8>)
    requires
        !is_known_tag(a, b),
    ensures
        WitcherPacketData::parse(seq![a, b] + rest) == Ok::<(PacketValue, nat), DecodeError>(
            (PacketValue::Unknown(a, b), 2),
        ),
        WitcherPacketData::encoded(PacketValue::Unknown(a, b)) == Ok::<Seq<u8>, EncodeError>(
            seq![a, b],
        ),
        WitcherPacketData::wire_size(PacketValue::Unknown(a, b)) == 2,
{
    reveal(value_wire);
    reveal(value_size);
    lemma_const_sizes();
    let bytes = seq![a, b] + rest;
    assert(bytes[0] == a && bytes[1] == b);
    lemma_parse_by_tag(bytes);
}

} // verus!
