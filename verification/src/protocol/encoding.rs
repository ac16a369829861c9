use vstd::prelude::*;
use crate::protocol::bytes::{
    be16, be32, be64, bits_of_i16, bits_of_i32, bits_of_i64, bits_of_i8, from_be16, from_be32,
    from_be64, i16_bits, i16_from_bits, i16_of_bits, i32_bits, i32_from_bits, i32_of_bits,
    i64_bits, i64_from_bits, i64_of_bits, i8_bits, i8_from_bits, i8_of_bits, lemma_be16,
    lemma_be32, lemma_be64, read_be16, read_be32, read_be64,
};
use crate::protocol::stream::{
    eof, mismatch, ByteStream, DecodeError, DecodeErrorKind, EncodeError, Field,
};
use crate::protocol::text::{
    decode_utf16_lossy, decode_utf8_lossy, lemma_lossy_utf16_of_encoding,
    lemma_lossy_utf8_of_encoding, lossy_utf16, lossy_utf8, utf16_encoding, utf16_units,
};
use vstd::utf8::encode_utf8;

verus! {

/// A value that can be written in wire form.
pub trait Encode: View {
    /// The wire form of a value, or the reason why it has none.
    spec fn encoded(v: Self::V) -> Result<Seq<u8>, EncodeError>;

    /// Appends the wire form of the value to `stream`; a value without one leaves the
    /// stream as it was.
    fn encode_into(&self, stream: &mut ByteStream) -> (r: Result<(), EncodeError>)
        ensures
            match Self::encoded(self@) {
                Ok(bytes) => r is Ok && final(stream)@ == old(stream)@ + bytes,
                Err(e) => r == Err::<(), EncodeError>(e) && final(stream)@ == old(stream)@,
            },
    ;
}

/// A value whose wire form always has the same length.
pub trait ConstSizedEncode: Sized + View {
    const ENCODED_SIZE: usize;
}

/// A value whose wire form has a length that depends on the value.
pub trait DynSizedEncode: View {
    /// The number of bytes that the wire form of a value takes.
    spec fn wire_size(v: Self::V) -> nat;

    fn encoded_size(&self) -> (n: usize)
        requires
            Self::wire_size(self@) <= usize::MAX,
        ensures
            n == Self::wire_size(self@),
    ;
}

impl<T: ConstSizedEncode> DynSizedEncode for T {
    open spec fn wire_size(v: Self::V) -> nat {
        Self::ENCODED_SIZE as nat
    }

    fn encoded_size(&self) -> (n: usize) {
        Self::ENCODED_SIZE
    }
}

/// The two bytes that announce a value's type on the wire.
pub trait EncodingTag {
    const ENCODING_TAG: [u8; 2];
}

/// A value that can be read from wire form.
pub trait Decode: Sized + View {
    /// The value at the start of `bytes` and the number of bytes it takes, or the reason
    /// why there is none.
    spec fn parse(bytes: Seq<u8>) -> Result<(Self::V, nat), DecodeError>;

    /// Reads the value that starts at offset `at` of `bytes`; gives it with the number of
    /// bytes it takes.
    fn decode_at(bytes: &[u8], at: usize) -> (r: Result<(Self, usize), DecodeError>)
        requires
            at <= bytes.len(),
        ensures
            match Self::parse(bytes@.skip(at as int)) {
                Ok((v, n)) => r matches Ok((x, m)) && x@ == v && m == n && at + n <= bytes.len(),
                Err(e) => r == Err::<(Self, usize), DecodeError>(e),
            },
    ;

    /// Consumes one value from the front of `stream`; on error nothing is consumed.
    fn decode_from(stream: &mut ByteStream) -> (r: Result<Self, DecodeError>)
        ensures
            match Self::parse(old(stream)@) {
                Ok((v, n)) => r matches Ok(x) && x@ == v && n <= old(stream)@.len()
                    && final(stream)@ == old(stream)@.skip(n as int),
                Err(e) => r == Err::<Self, DecodeError>(e) && final(stream)@ == old(stream)@,
            },
    {
        let decoded = Self::decode_at(stream.as_slice(), 0);
        assert(stream@.skip(0) =~= stream@);
        match decoded {
            Ok((value, count)) => {
                stream.advance(count);
                Ok(value)
            },
            Err(e) => Err(e),
        }
    }
}

impl EncodingTag for i8 {
    const ENCODING_TAG: [u8; 2] = [0x81, 0x08];
}

impl ConstSizedEncode for i8 {
    const ENCODED_SIZE: usize = 1;
}

impl Encode for i8 {
    open spec fn encoded(v: i8) -> Result<Seq<u8>, EncodeError> {
        Ok(seq![i8_bits(v)])
    }

    fn encode_into(&self, stream: &mut ByteStream) -> (r: Result<(), EncodeError>) {
        stream.write_byte(bits_of_i8(*self));
        assert(stream@ =~= old(stream)@ + seq![i8_bits(*self)]);
        Ok(())
    }
}

impl Decode for i8 {
    open spec fn parse(bytes: Seq<u8>) -> Result<(i8, nat), DecodeError> {
        if bytes.len() < 1 {
            Err(eof(Field::Int8))
        } else {
            Ok((i8_of_bits(bytes[0]), 1))
        }
    }

    fn decode_at(bytes: &[u8], at: usize) -> (r: Result<(Self, usize), DecodeError>) {
        if bytes.len() - at < 1 {
            return Err(DecodeError::eof(Field::Int8));
        }
        Ok((i8_from_bits(bytes[at]), 1))
    }
}

impl EncodingTag for i16 {
    const ENCODING_TAG: [u8; 2] = [0x81, 0x16];
}

impl ConstSizedEncode for i16 {
    const ENCODED_SIZE: usize = 2;
}

impl Encode for i16 {
    open spec fn encoded(v: i16) -> Result<Seq<u8>, EncodeError> {
        Ok(be16(i16_bits(v)))
    }

    fn encode_into(&self, stream: &mut ByteStream) -> (r: Result<(), EncodeError>) {
        stream.write_be16(bits_of_i16(*self));
        Ok(())
    }
}

impl Decode for i16 {
    open spec fn parse(bytes: Seq<u8>) -> Result<(i16, nat), DecodeError> {
        if bytes.len() < 2 {
            Err(eof(Field::Int16))
        } else {
            Ok((i16_of_bits(from_be16(bytes)), 2))
        }
    }

    fn decode_at(bytes: &[u8], at: usize) -> (r: Result<(Self, usize), DecodeError>) {
        if bytes.len() - at < 2 {
            return Err(DecodeError::eof(Field::Int16));
        }
        Ok((i16_from_bits(read_be16(bytes, at)), 2))
    }
}

impl Encode for u16 {
    open spec fn encoded(v: u16) -> Result<Seq<u8>, EncodeError> {
        Ok(be16(v))
    }

    fn encode_into(&self, stream: &mut ByteStream) -> (r: Result<(), EncodeError>) {
        stream.write_be16(*self);
        Ok(())
    }
}

impl Decode for u16 {
    open spec fn parse(bytes: Seq<u8>) -> Result<(u16, nat), DecodeError> {
        if bytes.len() < 2 {
            Err(eof(Field::UInt16))
        } else {
            Ok((from_be16(bytes), 2))
        }
    }

    fn decode_at(bytes: &[u8], at: usize) -> (r: Result<(Self, usize), DecodeError>) {
        if bytes.len() - at < 2 {
            return Err(DecodeError::eof(Field::UInt16));
        }
        Ok((read_be16(bytes, at), 2))
    }
}

impl EncodingTag for i32 {
    const ENCODING_TAG: [u8; 2] = [0x81, 0x32];
}

impl ConstSizedEncode for i32 {
    const ENCODED_SIZE: usize = 4;
}

impl Encode for i32 {
    open spec fn encoded(v: i32) -> Result<Seq<u8>, EncodeError> {
        Ok(be32(i32_bits(v)))
    }

    fn encode_into(&self, stream: &mut ByteStream) -> (r: Result<(), EncodeError>) {
        stream.write_be32(bits_of_i32(*self));
        Ok(())
    }
}

impl Decode for i32 {
    open spec fn parse(bytes: Seq<u8>) -> Result<(i32, nat), DecodeError> {
        if bytes.len() < 4 {
            Err(eof(Field::Int32))
        } else {
            Ok((i32_of_bits(from_be32(bytes)), 4))
        }
    }

    fn decode_at(bytes: &[u8], at: usize) -> (r: Result<(Self, usize), DecodeError>) {
        if bytes.len() - at < 4 {
            return Err(DecodeError::eof(Field::Int32));
        }
        Ok((i32_from_bits(read_be32(bytes, at)), 4))
    }
}

impl EncodingTag for u32 {
    const ENCODING_TAG: [u8; 2] = [0x71, 0x32];
}

impl ConstSizedEncode for u32 {
    const ENCODED_SIZE: usize = 4;
}

impl Encode for u32 {
    open spec fn encoded(v: u32) -> Result<Seq<u8>, EncodeError> {
        Ok(be32(v))
    }

    fn encode_into(&self, stream: &mut ByteStream) -> (r: Result<(), EncodeError>) {
        stream.write_be32(*self);
        Ok(())
    }
}

impl Decode for u32 {
    open spec fn parse(bytes: Seq<u8>) -> Result<(u32, nat), DecodeError> {
        if bytes.len() < 4 {
            Err(eof(Field::UInt32))
        } else {
            Ok((from_be32(bytes), 4))
        }
    }

    fn decode_at(bytes: &[u8], at: usize) -> (r: Result<(Self, usize), DecodeError>) {
        if bytes.len() - at < 4 {
            return Err(DecodeError::eof(Field::UInt32));
        }
        Ok((read_be32(bytes, at), 4))
    }
}

impl EncodingTag for i64 {
    const ENCODING_TAG: [u8; 2] = [0x81, 0x64];
}

impl ConstSizedEncode for i64 {
    const ENCODED_SIZE: usize = 8;
}

impl Encode for i64 {
    open spec fn encoded(v: i64) -> Result<Seq<u8>, EncodeError> {
        Ok(be64(i64_bits(v)))
    }

    fn encode_into(&self, stream: &mut ByteStream) -> (r: Result<(), EncodeError>) {
        stream.write_be64(bits_of_i64(*self));
        Ok(())
    }
}

impl Decode for i64 {
    open spec fn parse(bytes: Seq<u8>) -> Result<(i64, nat), DecodeError> {
        if bytes.len() < 8 {
            Err(eof(Field::Int64))
        } else {
            Ok((i64_of_bits(from_be64(bytes)), 8))
        }
    }

    fn decode_at(bytes: &[u8], at: usize) -> (r: Result<(Self, usize), DecodeError>) {
        if bytes.len() - at < 8 {
            return Err(DecodeError::eof(Field::Int64));
        }
        Ok((i64_from_bits(read_be64(bytes, at)), 8))
    }
}

/// Decoding undoes encoding, whatever follows on the wire, and an encoding is as long as
/// the value's size says.
pub trait RoundTrip: Encode + Decode + DynSizedEncode {
    proof fn lemma_round_trip(v: Self::V, rest: Seq<u8>)
        requires
            Self::encoded(v) is Ok,
        ensures
            Self::parse(Self::encoded(v)->Ok_0 + rest) == Ok::<(Self::V, nat), DecodeError>(
                (v, Self::encoded(v)->Ok_0.len()),
            ),
            Self::encoded(v)->Ok_0.len() == Self::wire_size(v),
    ;
}

impl RoundTrip for i8 {
    proof fn lemma_round_trip(v: i8, rest: Seq<u8>) {
        assert((seq![i8_bits(v)] + rest)[0] == i8_bits(v));
    }
}

impl RoundTrip for i16 {
    proof fn lemma_round_trip(v: i16, rest: Seq<u8>) {
        lemma_be16(i16_bits(v), rest);
    }
}

impl RoundTrip for i32 {
    proof fn lemma_round_trip(v: i32, rest: Seq<u8>) {
        lemma_be32(i32_bits(v), rest);
    }
}

impl RoundTrip for u32 {
    proof fn lemma_round_trip(v: u32, rest: Seq<u8>) {
        lemma_be32(v, rest);
    }
}

impl RoundTrip for i64 {
    proof fn lemma_round_trip(v: i64, rest: Seq<u8>) {
        lemma_be64(i64_bits(v), rest);
    }
}

/// A value that carries its type tag on the wire.
#[derive(Clone, Copy, Debug, PartialEq, Eq, PartialOrd, Ord, Hash)]
pub struct Tagged<T> {
    inner: T,
}

impl<T> Tagged<T> {
    /// The value that carries the tag.
    pub closed spec fn get(self) -> T {
        self.inner
    }

    #[inline]
    pub fn new(tagged: T) -> (t: Self)
        ensures
            t.get() == tagged,
    {
        Self { inner: tagged }
    }

    #[inline]
    pub fn into_inner(self) -> (inner: T)
        ensures
            inner == self.get(),
    {
        self.inner
    }

    /// The value that carries the tag, borrowed.
    #[inline]
    pub fn inner(&self) -> (inner: &T)
        ensures
            *inner == self.get(),
    {
        &self.inner
    }
}

impl<T: View> View for Tagged<T> {
    type V = T::V;

    open spec fn view(&self) -> T::V {
        self.get()@
    }
}

/// The tag bytes of `T` as a sequence.
pub open spec fn tag_of<T: EncodingTag>() -> Seq<u8> {
    T::ENCODING_TAG@
}

impl<T: Encode + EncodingTag> Encode for Tagged<T> {
    open spec fn encoded(v: T::V) -> Result<Seq<u8>, EncodeError> {
        match T::encoded(v) {
            Ok(bytes) => Ok(tag_of::<T>() + bytes),
            Err(e) => Err(e),
        }
    }

    fn encode_into(&self, stream: &mut ByteStream) -> (r: Result<(), EncodeError>) {
        let keep = stream.len();
        let tag = T::ENCODING_TAG;
        stream.write_byte(tag[0]);
        stream.write_byte(tag[1]);
        assert(stream@ =~= old(stream)@ + tag_of::<T>());
        match self.inner.encode_into(stream) {
            Ok(()) => {
                assert(stream@ =~= old(stream)@ + (tag_of::<T>() + T::encoded(self@)->Ok_0));
                Ok(())
            },
            Err(e) => {
                stream.truncate(keep);
                assert(stream@ =~= old(stream)@);
                Err(e)
            },
        }
    }
}

impl<T: DynSizedEncode + EncodingTag> DynSizedEncode for Tagged<T> {
    open spec fn wire_size(v: T::V) -> nat {
        2 + T::wire_size(v)
    }

    fn encoded_size(&self) -> (n: usize) {
        2 + self.inner.encoded_size()
    }
}

impl<T: Decode + EncodingTag> Decode for Tagged<T> {
    open spec fn parse(bytes: Seq<u8>) -> Result<(T::V, nat), DecodeError> {
        if bytes.len() < 2 {
            Err(eof(Field::Tag))
        } else if bytes.take(2) != tag_of::<T>() {
            Err(mismatch(Field::Tag))
        } else {
            match T::parse(bytes.skip(2)) {
                Ok((v, n)) => Ok((v, n + 2)),
                Err(e) => Err(e),
            }
        }
    }

    fn decode_at(bytes: &[u8], at: usize) -> (r: Result<(Self, usize), DecodeError>) {
        if bytes.len() - at < 2 {
            return Err(DecodeError::eof(Field::Tag));
        }
        let tag = T::ENCODING_TAG;
        let ghost found = bytes@.skip(at as int).take(2);
        if bytes[at] != tag[0] || bytes[at + 1] != tag[1] {
            assert(found[0] != tag_of::<T>()[0] || found[1] != tag_of::<T>()[1]);
            return Err(DecodeError::mismatch(Field::Tag));
        }
        assert(found =~= tag_of::<T>());
        assert(bytes@.skip(at as int).skip(2) =~= bytes@.skip(at + 2));
        match T::decode_at(bytes, at + 2) {
            Ok((inner, count)) => Ok((Tagged::new(inner), count + 2)),
            Err(e) => Err(e),
        }
    }
}

impl<T: RoundTrip + EncodingTag> RoundTrip for Tagged<T> {
    proof fn lemma_round_trip(v: T::V, rest: Seq<u8>) {
        let inner = T::encoded(v)->Ok_0;
        let bytes = tag_of::<T>() + inner + rest;
        T::lemma_round_trip(v, rest);
        assert(bytes.take(2) =~= tag_of::<T>());
        assert(bytes.skip(2) =~= inner + rest);
    }
}

/// The tags of the seven kinds of value that carry one.
pub proof fn lemma_tag_values()
    ensures
        tag_of::<i8>() =~= seq![0x81u8, 0x08u8],
        tag_of::<i16>() =~= seq![0x81u8, 0x16u8],
        tag_of::<i32>() =~= seq![0x81u8, 0x32u8],
        tag_of::<u32>() =~= seq![0x71u8, 0x32u8],
        tag_of::<i64>() =~= seq![0x81u8, 0x64u8],
        tag_of::<StringUtf8>() =~= seq![0xACu8, 0x08u8],
        tag_of::<StringUtf16>() =~= seq![0x9Cu8, 0x16u8],
{
}

/// The sizes of the kinds of value whose wire form has a fixed length.
pub proof fn lemma_const_sizes()
    ensures
        i8::ENCODED_SIZE == 1,
        i16::ENCODED_SIZE == 2,
        i32::ENCODED_SIZE == 4,
        u32::ENCODED_SIZE == 4,
        i64::ENCODED_SIZE == 8,
        UnknownTag::ENCODED_SIZE == 2,
{
}

/// The longest payload, in bytes for UTF-8 and in code units for UTF-16, that a string's
/// 16-bit signed length prefix can announce.
pub const MAX_STRING_UNITS: usize = 0x7FFF;

/// The number that the length prefix holds for a payload of `len` units: `len` itself
/// while it fits, and beyond that its low 16 bits read as a signed number.
pub open spec fn length_prefix(len: nat) -> i16 {
    i16_of_bits((len % 0x1_0000) as u16)
}

/// The wire form of the length prefix of a payload of `len` units.
pub open spec fn length_wire(len: nat) -> Seq<u8> {
    tag_of::<i16>() + be16(i16_bits(length_prefix(len)))
}

/// The length that a string's prefix announces at the start of `bytes`, read for `field`.
pub open spec fn parse_length(bytes: Seq<u8>, field: Field) -> Result<nat, DecodeError> {
    match Tagged::<i16>::parse(bytes) {
        Err(e) => Err(DecodeError { kind: e.kind, field }),
        Ok((len, _)) => if len < 0 {
            Err(DecodeError { kind: DecodeErrorKind::NegativeLength, field })
        } else {
            Ok(len as nat)
        },
    }
}

/// A length prefix reads back as the length it was written for.
pub proof fn lemma_length_round_trip(len: nat, field: Field, rest: Seq<u8>)
    requires
        len <= MAX_STRING_UNITS,
    ensures
        length_wire(len).len() == 4,
        parse_length(length_wire(len) + rest, field) == Ok::<nat, DecodeError>(len),
{
    let v = length_prefix(len);
    assert(v == len);
    Tagged::<i16>::lemma_round_trip(v, rest);
}

fn length_tag(len: usize) -> (tagged: Tagged<i16>)
    ensures
        tagged@ == length_prefix(len as nat),
{
    Tagged::new(i16_from_bits((len % 0x1_0000) as u16))
}

fn decode_length(bytes: &[u8], at: usize, field: Field) -> (r: Result<usize, DecodeError>)
    requires
        at <= bytes.len(),
    ensures
        match parse_length(bytes@.skip(at as int), field) {
            Ok(len) => r == Ok::<usize, DecodeError>(len as usize) && len <= MAX_STRING_UNITS
                && at + 4 <= bytes.len(),
            Err(e) => r == Err::<usize, DecodeError>(e),
        },
{
    match Tagged::<i16>::decode_at(bytes, at) {
        Err(e) => Err(DecodeError { kind: e.kind, field }),
        Ok((tagged, _)) => {
            let len = tagged.into_inner();
            if len < 0 {
                Err(DecodeError { kind: DecodeErrorKind::NegativeLength, field })
            } else {
                Ok(len as usize)
            }
        },
    }
}

/// Text that travels as UTF-8 bytes behind a tagged length in bytes.
#[derive(Debug, Clone, PartialEq, Eq, PartialOrd, Ord, Hash)]
pub struct StringUtf8(pub String);

impl View for StringUtf8 {
    type V = Seq<char>;

    open spec fn view(&self) -> Seq<char> {
        self.0@
    }
}

impl StringUtf8 {
    #[inline]
    pub fn len_tagged(&self) -> (len: Tagged<i16>)
        ensures
            len@ == length_prefix(encode_utf8(self@).len()),
    {
        length_tag(self.0.as_str().as_bytes().len())
    }

    #[inline]
    pub fn bytes_encoded(&self) -> (bytes: &[u8])
        ensures
            bytes@ == encode_utf8(self@),
    {
        self.0.as_str().as_bytes()
    }

    /// The text itself.
    #[inline]
    pub fn as_str(&self) -> (s: &str)
        ensures
            s@ == self@,
    {
        self.0.as_str()
    }
}

impl EncodingTag for StringUtf8 {
    const ENCODING_TAG: [u8; 2] = [0xAC, 0x08];
}

impl Encode for StringUtf8 {
    open spec fn encoded(v: Seq<char>) -> Result<Seq<u8>, EncodeError> {
        let bytes = encode_utf8(v);
        if bytes.len() > MAX_STRING_UNITS {
            Err(EncodeError::StringTooLong)
        } else {
            Ok(length_wire(bytes.len()) + bytes)
        }
    }

    fn encode_into(&self, stream: &mut ByteStream) -> (r: Result<(), EncodeError>) {
        let bytes = self.bytes_encoded();
        if bytes.len() > MAX_STRING_UNITS {
            return Err(EncodeError::StringTooLong);
        }
        let written = self.len_tagged().encode_into(stream);
        stream.write_all(bytes);
        assert(stream@ =~= old(stream)@ + (length_wire(bytes@.len()) + bytes@));
        written
    }
}

impl DynSizedEncode for StringUtf8 {
    open spec fn wire_size(v: Seq<char>) -> nat {
        4 + encode_utf8(v).len()
    }

    fn encoded_size(&self) -> (n: usize) {
        let len = self.len_tagged();
        len.encoded_size() + self.bytes_encoded().len()
    }
}

impl Decode for StringUtf8 {
    open spec fn parse(bytes: Seq<u8>) -> Result<(Seq<char>, nat), DecodeError> {
        match parse_length(bytes, Field::Utf8Length) {
            Err(e) => Err(e),
            Ok(len) => if bytes.len() < 4 + len {
                Err(eof(Field::Utf8Content))
            } else {
                Ok((lossy_utf8(bytes.subrange(4, 4 + len as int)), 4 + len))
            },
        }
    }

    fn decode_at(bytes: &[u8], at: usize) -> (r: Result<(Self, usize), DecodeError>) {
        let len = match decode_length(bytes, at, Field::Utf8Length) {
            Ok(len) => len,
            Err(e) => { return Err(e); },
        };
        if bytes.len() - at - 4 < len {
            return Err(DecodeError::eof(Field::Utf8Content));
        }
        let content = &bytes[at + 4..at + 4 + len];
        assert(content@ =~= bytes@.skip(at as int).subrange(4, 4 + len));
        Ok((StringUtf8(decode_utf8_lossy(content)), 4 + len))
    }
}

impl RoundTrip for StringUtf8 {
    proof fn lemma_round_trip(v: Seq<char>, rest: Seq<u8>) {
        let bytes = encode_utf8(v);
        let len = bytes.len();
        let wire = length_wire(len) + bytes + rest;
        lemma_length_round_trip(len, Field::Utf8Length, bytes + rest);
        assert(wire =~= length_wire(len) + (bytes + rest));
        assert(wire.subrange(4, 4 + len as int) =~= bytes);
        lemma_lossy_utf8_of_encoding(v);
    }
}

/// The big-endian bytes of a sequence of code units, two for each unit.
pub open spec fn be16_units(units: Seq<u16>) -> Seq<u8> {
    Seq::new(
        2 * units.len(),
        |i: int|
            if i % 2 == 0 {
                (units[i / 2] / 0x100) as u8
            } else {
                (units[i / 2] % 0x100) as u8
            },
    )
}

/// The code units that `bytes` hold big-endian, one for each two bytes.
pub open spec fn units_of_be16(bytes: Seq<u8>) -> Seq<u16> {
    Seq::new(bytes.len() / 2, |i: int| (bytes[2 * i] * 0x100 + bytes[2 * i + 1]) as u16)
}

/// Code units read back from their big-endian bytes.
pub proof fn lemma_units_round_trip(units: Seq<u16>)
    ensures
        be16_units(units).len() == 2 * units.len(),
        units_of_be16(be16_units(units)) == units,
{
    let bytes = be16_units(units);
    assert forall|i: int| 0 <= i < units.len() implies units_of_be16(bytes)[i] == units[i] by {
        assert(bytes[2 * i] == (units[i] / 0x100) as u8);
        assert(bytes[2 * i + 1] == (units[i] % 0x100) as u8);
    }
    assert(units_of_be16(bytes) =~= units);
}

fn units_to_bytes(units: &Vec<u16>) -> (bytes: Vec<u8>)
    ensures
        bytes@ == be16_units(units@),
{
    let mut bytes: Vec<u8> = Vec::new();
    let mut i: usize = 0;
    while i < units.len()
        invariant
            i <= units.len(),
            bytes@ == be16_units(units@.take(i as int)),
        decreases units.len() - i,
    {
        let unit = units[i];
        bytes.push((unit / 0x100) as u8);
        bytes.push((unit % 0x100) as u8);
        assert(bytes@ =~= be16_units(units@.take(i + 1)));
        i += 1;
    }
    assert(units@.take(i as int) =~= units@);
    bytes
}

fn units_from_bytes(bytes: &[u8], from: usize, count: usize) -> (units: Vec<u16>)
    requires
        from + 2 * count <= bytes.len(),
    ensures
        units@ == units_of_be16(bytes@.subrange(from as int, from + 2 * count)),
{
    let ghost content = bytes@.subrange(from as int, from + 2 * count);
    let mut units: Vec<u16> = Vec::new();
    let mut i: usize = 0;
    while i < count
        invariant
            i <= count,
            from + 2 * count <= bytes.len(),
            content == bytes@.subrange(from as int, from + 2 * count),
            units@ == units_of_be16(content).take(i as int),
        decreases count - i,
    {
        let hi: u16 = bytes[from + 2 * i] as u16;
        let lo: u16 = bytes[from + 2 * i + 1] as u16;
        units.push(hi * 0x100 + lo);
        assert(units@ =~= units_of_be16(content).take(i + 1));
        i += 1;
    }
    assert(units_of_be16(content).take(i as int) =~= units_of_be16(content));
    units
}

/// Text that travels as big-endian UTF-16 code units behind a tagged length in code units.
#[derive(Debug, Clone, PartialEq, Eq, PartialOrd, Ord, Hash)]
pub struct StringUtf16(pub String);

impl View for StringUtf16 {
    type V = Seq<char>;

    open spec fn view(&self) -> Seq<char> {
        self.0@
    }
}

impl StringUtf16 {
    #[inline]
    pub fn len_tagged(&self) -> (len: Tagged<i16>)
        ensures
            len@ == length_prefix(utf16_encoding(self@).len()),
    {
        length_tag(utf16_units(self.0.as_str()).len())
    }

    #[inline]
    pub fn bytes_encoded(&self) -> (bytes: Vec<u8>)
        ensures
            bytes@ == be16_units(utf16_encoding(self@)),
    {
        units_to_bytes(&utf16_units(self.0.as_str()))
    }

    /// The text itself.
    #[inline]
    pub fn as_str(&self) -> (s: &str)
        ensures
            s@ == self@,
    {
        self.0.as_str()
    }
}

impl EncodingTag for StringUtf16 {
    const ENCODING_TAG: [u8; 2] = [0x9C, 0x16];
}

impl Encode for StringUtf16 {
    open spec fn encoded(v: Seq<char>) -> Result<Seq<u8>, EncodeError> {
        let units = utf16_encoding(v);
        if units.len() > MAX_STRING_UNITS {
            Err(EncodeError::StringTooLong)
        } else {
            Ok(length_wire(units.len()) + be16_units(units))
        }
    }

    fn encode_into(&self, stream: &mut ByteStream) -> (r: Result<(), EncodeError>) {
        let units = utf16_units(self.0.as_str());
        if units.len() > MAX_STRING_UNITS {
            return Err(EncodeError::StringTooLong);
        }
        let bytes = units_to_bytes(&units);
        let written = length_tag(units.len()).encode_into(stream);
        stream.write_all(bytes.as_slice());
        assert(stream@ =~= old(stream)@ + (length_wire(units@.len()) + bytes@));
        written
    }
}

impl DynSizedEncode for StringUtf16 {
    open spec fn wire_size(v: Seq<char>) -> nat {
        4 + 2 * utf16_encoding(v).len()
    }

    fn encoded_size(&self) -> (n: usize) {
        let units = utf16_units(self.0.as_str());
        4 + units.len() * 2
    }
}

impl Decode for StringUtf16 {
    open spec fn parse(bytes: Seq<u8>) -> Result<(Seq<char>, nat), DecodeError> {
        match parse_length(bytes, Field::Utf16Length) {
            Err(e) => Err(e),
            Ok(len) => if bytes.len() < 4 + 2 * len {
                Err(eof(Field::Utf16Content))
            } else {
                Ok((lossy_utf16(units_of_be16(bytes.subrange(4, 4 + 2 * len as int))), 4 + 2 * len))
            },
        }
    }

    fn decode_at(bytes: &[u8], at: usize) -> (r: Result<(Self, usize), DecodeError>) {
        let len = match decode_length(bytes, at, Field::Utf16Length) {
            Ok(len) => len,
            Err(e) => { return Err(e); },
        };
        if bytes.len() - at - 4 < 2 * len {
            return Err(DecodeError::eof(Field::Utf16Content));
        }
        let units = units_from_bytes(bytes, at + 4, len);
        assert(bytes@.subrange(at + 4, at + 4 + 2 * len) =~= bytes@.skip(at as int).subrange(
            4,
            4 + 2 * len,
        ));
        let text = decode_utf16_lossy(units.as_slice());
        proof {
            if crate::protocol::text::is_utf16(units@) {
                let s = choose|s: Seq<char>| #[trigger] utf16_encoding(s) == units@;
                assert(text@ == s);
            }
        }
        Ok((StringUtf16(text), 4 + 2 * len))
    }
}

impl RoundTrip for StringUtf16 {
    proof fn lemma_round_trip(v: Seq<char>, rest: Seq<u8>) {
        let units = utf16_encoding(v);
        let bytes = be16_units(units);
        let len = units.len();
        let wire = length_wire(len) + bytes + rest;
        lemma_units_round_trip(units);
        lemma_length_round_trip(len, Field::Utf16Length, bytes + rest);
        assert(wire =~= length_wire(len) + (bytes + rest));
        assert(wire.subrange(4, 4 + 2 * len as int) =~= bytes);
        lemma_lossy_utf16_of_encoding(v);
    }
}

/// Two bytes found where a type tag was expected and that are no known tag.
#[derive(Debug, Clone, Copy, PartialEq, Eq, PartialOrd, Ord, Hash)]
pub struct UnknownTag(pub [u8; 2]);

impl View for UnknownTag {
    type V = (u8, u8);

    open spec fn view(&self) -> (u8, u8) {
        (self.0[0], self.0[1])
    }
}

impl ConstSizedEncode for UnknownTag {
    const ENCODED_SIZE: usize = 2;
}

impl Encode for UnknownTag {
    open spec fn encoded(v: (u8, u8)) -> Result<Seq<u8>, EncodeError> {
        Ok(seq![v.0, v.1])
    }

    fn encode_into(&self, stream: &mut ByteStream) -> (r: Result<(), EncodeError>) {
        stream.write_byte(self.0[0]);
        stream.write_byte(self.0[1]);
        assert(stream@ =~= old(stream)@ + seq![self.0[0], self.0[1]]);
        Ok(())
    }
}

} // verus!
