use vstd::prelude::*;
use crate::protocol::bytes::{from_be16, read_be16};
use crate::protocol::packet::{head_bytes, FRAME_SIZE};
use crate::protocol::stream::{eof, mismatch, DecodeError, DecodeErrorKind, Field};

verus! {

/// A read timeout is necessary to be able to shut down the connection.
/// Without it a read would block until it received data or the connection was severed.
pub const DEFAULT_READ_TIMEOUT_MILLIS: u64 = 2000;

/// Describes Witcher 3's connection port
#[derive(Debug, Clone, PartialEq, Eq, Default)]
pub enum WitcherPort {
    /// Connect to the game running on its own
    #[default]
    Game,
    /// Connect to the game running through REDKit
    Editor,
    /// Connect on a custom port
    Custom(u16),
}

impl WitcherPort {
    /// The number of the port.
    pub open spec fn number(self) -> u16 {
        match self {
            WitcherPort::Editor => 37000,
            WitcherPort::Game => 37001,
            WitcherPort::Custom(p) => p,
        }
    }

    #[inline]
    pub fn as_number(&self) -> (n: u16)
        ensures
            n == self.number(),
    {
        match self {
            WitcherPort::Editor => 37000,
            WitcherPort::Game => 37001,
            WitcherPort::Custom(p) => *p,
        }
    }
}

/// How a look at the connection for incoming bytes ended.
#[derive(Debug, Clone, Copy, PartialEq, Eq, Structural)]
pub enum PeekOutcome {
    /// So many bytes can be read without waiting.
    Available(usize),
    /// The read timeout passed before any bytes came.
    TimedOut,
    /// The connection does not block and has no bytes.
    WouldBlock,
    /// The connection failed in another way.
    Failed,
}

/// Whether a packet can be read: it can once the bytes of the smallest packet are
/// there; not yet where the look timed out or would have blocked; and a connection
/// that failed in another way gives no answer.
pub open spec fn packet_available(outcome: PeekOutcome) -> Option<bool> {
    match outcome {
        PeekOutcome::Available(count) => Some(count >= FRAME_SIZE),
        PeekOutcome::TimedOut => Some(false),
        PeekOutcome::WouldBlock => Some(false),
        PeekOutcome::Failed => None,
    }
}

/// Whether a packet can be read after a look at the connection; `None` where the
/// connection failed.
pub fn peek(outcome: PeekOutcome) -> (available: Option<bool>)
    ensures
        available == packet_available(outcome),
{
    match outcome {
        PeekOutcome::Available(count) => Some(count >= FRAME_SIZE),
        PeekOutcome::TimedOut => Some(false),
        PeekOutcome::WouldBlock => Some(false),
        PeekOutcome::Failed => None,
    }
}

/// Whether a read timeout is one that lets the connection shut down: it must not be
/// zero.
pub fn valid_read_timeout(millis: u64) -> (valid: bool)
    ensures
        valid == (millis != 0),
{
    millis != 0
}

/// The size that the first four bytes of a packet announce for the whole packet.
pub open spec fn announced_size(header: Seq<u8>) -> Result<nat, DecodeError> {
    if header.len() < 2 {
        Err(eof(Field::PacketHead))
    } else if header.take(2) != head_bytes() {
        Err(mismatch(Field::PacketHead))
    } else if header.len() < 4 {
        Err(eof(Field::PacketSize))
    } else if from_be16(header.skip(2)) < FRAME_SIZE {
        Err(DecodeError { kind: DecodeErrorKind::SizeTooSmall, field: Field::PacketSize })
    } else {
        Ok(from_be16(header.skip(2)) as nat)
    }
}

/// The number of bytes of the packet whose first bytes are `header`, for a reader that
/// has to know how many bytes to wait for.
pub fn frame_size(header: &[u8]) -> (size: Result<usize, DecodeError>)
    ensures
        match announced_size(header@) {
            Ok(n) => size == Ok::<usize, DecodeError>(n as usize) && FRAME_SIZE <= n <= 0xFFFF,
            Err(e) => size == Err::<usize, DecodeError>(e),
        },
{
    if header.len() < 2 {
        return Err(DecodeError::eof(Field::PacketHead));
    }
    if header[0] != 0xDE || header[1] != 0xAD {
        assert(header@.take(2)[0] != head_bytes()[0] || header@.take(2)[1] != head_bytes()[1]);
        return Err(DecodeError::mismatch(Field::PacketHead));
    }
    assert(header@.take(2) =~= head_bytes());
    if header.len() < 4 {
        return Err(DecodeError::eof(Field::PacketSize));
    }
    let size = read_be16(header, 2);
    if (size as usize) < FRAME_SIZE {
        return Err(DecodeError { kind: DecodeErrorKind::SizeTooSmall, field: Field::PacketSize });
    }
    Ok(size as usize)
}

} // verus!
