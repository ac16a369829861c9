use vstd::prelude::*;
use crate::protocol::bytes::{be16, be32, be64, push_be16, push_be32, push_be64};

verus! {

/// The part of the wire format a decoder was reading when it gave up.
#[derive(Clone, Copy, Debug, PartialEq, Eq, Structural)]
pub enum Field {
    PacketHead,
    PacketSize,
    PacketTail,
    Tag,
    Int8,
    Int16,
    UInt16,
    Int32,
    UInt32,
    Int64,
    Utf8Length,
    Utf8Content,
    Utf16Length,
    Utf16Content,
}

/// What went wrong while decoding.
#[derive(Clone, Copy, Debug, PartialEq, Eq, Structural)]
pub enum DecodeErrorKind {
    /// The source ended before the field was complete.
    UnexpectedEof,
    /// Fixed bytes (packet head, packet tail, an expected tag) were not the ones found.
    Mismatch,
    /// A string announced a negative length.
    NegativeLength,
    /// A packet announced a size below that of an empty packet.
    SizeTooSmall,
}

/// A fatal decode error together with the field that failed.
#[derive(Clone, Copy, Debug, PartialEq, Eq, Structural)]
pub struct DecodeError {
    pub kind: DecodeErrorKind,
    pub field: Field,
}

/// Why a value has no wire form.
#[derive(Clone, Copy, Debug, PartialEq, Eq, Structural)]
pub enum EncodeError {
    /// A string is longer than its signed 16-bit length prefix can say.
    StringTooLong,
    /// A packet is larger than its unsigned 16-bit size field can say.
    PacketTooLarge,
}

pub open spec fn eof(field: Field) -> DecodeError {
    DecodeError { kind: DecodeErrorKind::UnexpectedEof, field }
}

pub open spec fn mismatch(field: Field) -> DecodeError {
    DecodeError { kind: DecodeErrorKind::Mismatch, field }
}

/// What a reader is told about a decode error.
pub open spec fn message_of(e: DecodeError) -> Seq<char> {
    match e.kind {
        DecodeErrorKind::UnexpectedEof => match e.field {
            Field::PacketHead => "No packet head"@,
            Field::PacketSize => "Failed to decode packet size"@,
            Field::PacketTail => "No packet tail"@,
            Field::Tag => "Failed to read encoding tag"@,
            Field::Int8 => "Failed to read bytes from stream for i8"@,
            Field::Int16 => "Failed to read bytes from stream for i16"@,
            Field::UInt16 => "Failed to read bytes from stream for u16"@,
            Field::Int32 => "Failed to read bytes from stream for i32"@,
            Field::UInt32 => "Failed to read bytes from stream for u32"@,
            Field::Int64 => "Failed to read bytes from stream for i64"@,
            Field::Utf8Length => "Failed to decode UTF8 string length"@,
            Field::Utf8Content => "Failed to read UTF8 string contents"@,
            Field::Utf16Length => "Failed to decode UTF16 string length"@,
            Field::Utf16Content => "Failed to read UTF16 string contents"@,
        },
        DecodeErrorKind::Mismatch => match e.field {
            Field::PacketHead => "Invalid packet head"@,
            Field::PacketTail => "Invalid packet tail"@,
            _ => "Invalid encoding tag"@,
        },
        DecodeErrorKind::NegativeLength => "Negative string length"@,
        DecodeErrorKind::SizeTooSmall => "Packet size below the minimum"@,
    }
}

impl DecodeError {
    /// The stream ended inside `field`.
    pub fn eof(field: Field) -> (e: Self)
        ensures
            e == eof(field),
    {
        DecodeError { kind: DecodeErrorKind::UnexpectedEof, field }
    }

    /// Fixed bytes expected at `field` were not the ones found.
    pub fn mismatch(field: Field) -> (e: Self)
        ensures
            e == mismatch(field),
    {
        DecodeError { kind: DecodeErrorKind::Mismatch, field }
    }

    /// A short human-readable description of the error.
    pub fn message(&self) -> (s: &'static str)
        ensures
            s@ == message_of(*self),
    {
        match self.kind {
            DecodeErrorKind::UnexpectedEof => match self.field {
                Field::PacketHead => "No packet head",
                Field::PacketSize => "Failed to decode packet size",
                Field::PacketTail => "No packet tail",
                Field::Tag => "Failed to read encoding tag",
                Field::Int8 => "Failed to read bytes from stream for i8",
                Field::Int16 => "Failed to read bytes from stream for i16",
                Field::UInt16 => "Failed to read bytes from stream for u16",
                Field::Int32 => "Failed to read bytes from stream for i32",
                Field::UInt32 => "Failed to read bytes from stream for u32",
                Field::Int64 => "Failed to read bytes from stream for i64",
                Field::Utf8Length => "Failed to decode UTF8 string length",
                Field::Utf8Content => "Failed to read UTF8 string contents",
                Field::Utf16Length => "Failed to decode UTF16 string length",
                Field::Utf16Content => "Failed to read UTF16 string contents",
            },
            DecodeErrorKind::Mismatch => match self.field {
                Field::PacketHead => "Invalid packet head",
                Field::PacketTail => "Invalid packet tail",
                _ => "Invalid encoding tag",
            },
            DecodeErrorKind::NegativeLength => "Negative string length",
            DecodeErrorKind::SizeTooSmall => "Packet size below the minimum",
        }
    }
}

/// An in-memory byte queue: encoders append at its end, decoders consume from its front.
/// Its view is the sequence of bytes not yet consumed.
pub struct ByteStream {
    buf: Vec<u8>,
    pos: usize,
}

impl View for ByteStream {
    type V = Seq<u8>;

    closed spec fn view(&self) -> Seq<u8> {
        if self.pos <= self.buf.len() {
            self.buf@.skip(self.pos as int)
        } else {
            Seq::empty()
        }
    }
}

impl ByteStream {
    /// An empty stream.
    pub fn new() -> (s: Self)
        ensures
            s@ == Seq::<u8>::empty(),
    {
        ByteStream { buf: Vec::new(), pos: 0 }
    }

    /// A stream holding `bytes`, none of them consumed.
    pub fn from_vec(bytes: Vec<u8>) -> (s: Self)
        ensures
            s@ == bytes@,
    {
        ByteStream { buf: bytes, pos: 0 }
    }

    /// The number of bytes not yet consumed.
    pub fn len(&self) -> (n: usize)
        ensures
            n == self@.len(),
    {
        if self.pos <= self.buf.len() {
            self.buf.len() - self.pos
        } else {
            0
        }
    }

    /// The bytes not yet consumed.
    pub fn as_slice(&self) -> (s: &[u8])
        ensures
            s@ == self@,
    {
        let all = self.buf.as_slice();
        let from = if self.pos <= all.len() {
            self.pos
        } else {
            all.len()
        };
        let s = &all[from..all.len()];
        assert(s@ =~= self@);
        s
    }

    /// Appends one byte.
    pub fn write_byte(&mut self, byte: u8)
        ensures
            final(self)@ == old(self)@.push(byte),
    {
        if self.pos > self.buf.len() {
            self.pos = self.buf.len();
        }
        self.buf.push(byte);
        assert(self.buf@.skip(self.pos as int) =~= old(self)@.push(byte));
    }

    /// Appends a 16-bit value, most significant byte first.
    pub fn write_be16(&mut self, v: u16)
        ensures
            final(self)@ == old(self)@ + be16(v),
    {
        if self.pos > self.buf.len() {
            self.pos = self.buf.len();
        }
        push_be16(&mut self.buf, v);
        assert(self.buf@.skip(self.pos as int) =~= old(self)@ + be16(v));
    }

    /// Appends a 32-bit value, most significant byte first.
    pub fn write_be32(&mut self, v: u32)
        ensures
            final(self)@ == old(self)@ + be32(v),
    {
        if self.pos > self.buf.len() {
            self.pos = self.buf.len();
        }
        push_be32(&mut self.buf, v);
        assert(self.buf@.skip(self.pos as int) =~= old(self)@ + be32(v));
    }

    /// Appends a 64-bit value, most significant byte first.
    pub fn write_be64(&mut self, v: u64)
        ensures
            final(self)@ == old(self)@ + be64(v),
    {
        if self.pos > self.buf.len() {
            self.pos = self.buf.len();
        }
        push_be64(&mut self.buf, v);
        assert(self.buf@.skip(self.pos as int) =~= old(self)@ + be64(v));
    }

    /// Appends all of `bytes`.
    pub fn write_all(&mut self, bytes: &[u8])
        ensures
            final(self)@ == old(self)@ + bytes@,
    {
        let mut i: usize = 0;
        while i < bytes.len()
            invariant
                i <= bytes.len(),
                self@ == old(self)@ + bytes@.take(i as int),
            decreases bytes.len() - i,
        {
            self.write_byte(bytes[i]);
            assert(bytes@.take(i as int).push(bytes@[i as int]) =~= bytes@.take(i + 1));
            assert(self@ =~= old(self)@ + bytes@.take(i + 1));
            i += 1;
        }
        assert(bytes@.take(i as int) =~= bytes@);
    }

    /// Drops everything behind the first `keep` bytes not yet consumed.
    pub fn truncate(&mut self, keep: usize)
        requires
            keep <= old(self)@.len(),
        ensures
            final(self)@ == old(self)@.take(keep as int),
    {
        if self.pos <= self.buf.len() {
            self.buf.truncate(self.pos + keep);
            assert(self@ =~= old(self)@.take(keep as int));
        } else {
            assert(self@ =~= old(self)@.take(keep as int));
        }
    }

    /// Consumes `count` bytes from the front.
    pub fn advance(&mut self, count: usize)
        requires
            count <= old(self)@.len(),
        ensures
            final(self)@ == old(self)@.skip(count as int),
    {
        if count > 0 {
            self.pos = self.pos + count;
            assert(self@ =~= old(self)@.skip(count as int));
        } else {
            assert(self@ =~= old(self)@.skip(0));
        }
    }

    /// Gives back every byte not yet consumed, leaving the stream empty.
    pub fn take_all(&mut self) -> (bytes: Vec<u8>)
        ensures
            bytes@ == old(self)@,
            final(self)@ == Seq::<u8>::empty(),
    {
        let unread = self.as_slice();
        let mut bytes: Vec<u8> = Vec::new();
        let mut i: usize = 0;
        while i < unread.len()
            invariant
                i <= unread.len(),
                bytes@ == unread@.take(i as int),
            decreases unread.len() - i,
        {
            bytes.push(unread[i]);
            assert(unread@.take(i as int).push(unread@[i as int]) =~= unread@.take(i + 1));
            i += 1;
        }
        assert(unread@.take(i as int) =~= unread@);
        self.buf = Vec::new();
        self.pos = 0;
        bytes
    }
}

} // verus!
