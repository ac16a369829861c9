use vstd::prelude::*;
use crate::connection::WitcherPort;

verus! {

/// How long a connection may take to come about, in milliseconds.
pub const CONNECT_TIMEOUT_MILLIS: u64 = 5000;

/// How long one look at the connection for a response may take, in milliseconds.
pub const READ_TIMEOUT: i64 = 1000;

/// Where to connect to.
#[derive(Debug, Clone, Copy, PartialEq, Eq, Structural)]
pub enum ConnectionTarget {
    /// Connect to the game running on its own
    Game,
    /// Connect to the game running through REDkit editor
    Editor,
}

/// The port of a connection target.
pub fn target_port(target: ConnectionTarget) -> (port: WitcherPort)
    ensures
        port == match target {
            ConnectionTarget::Game => WitcherPort::Game,
            ConnectionTarget::Editor => WitcherPort::Editor,
        },
{
    match target {
        ConnectionTarget::Game => WitcherPort::Game,
        ConnectionTarget::Editor => WitcherPort::Editor,
    }
}

/// What the reader of responses does after a look at the connection.
#[derive(Debug, Clone, Copy, PartialEq, Eq, Structural)]
pub enum ResponseWait {
    /// Read the packet that is there; the wait starts anew.
    Read,
    /// Look again; so many milliseconds have passed without a packet.
    Wait(i64),
    /// Give up: the game has not responded in time.
    TimedOut,
}

/// What the reader of responses does: it reads a packet that is there; else the wait
/// grows by the time of one look, and ends once it has reached the timeout, unless
/// the timeout is negative, which means that there is none.
pub open spec fn response_wait(elapsed: i64, packet_available: bool, response_timeout: i64) -> ResponseWait {
    if packet_available {
        ResponseWait::Read
    } else {
        let waited = if elapsed + READ_TIMEOUT > i64::MAX {
            i64::MAX
        } else {
            (elapsed + READ_TIMEOUT) as i64
        };
        if response_timeout >= 0 && waited >= response_timeout {
            ResponseWait::TimedOut
        } else {
            ResponseWait::Wait(waited)
        }
    }
}

/// What the reader of responses does after a look at the connection.
pub fn read_responses(elapsed: i64, packet_available: bool, response_timeout: i64) -> (next:
    ResponseWait)
    ensures
        next == response_wait(elapsed, packet_available, response_timeout),
{
    if packet_available {
        ResponseWait::Read
    } else {
        let waited = if elapsed > i64::MAX - READ_TIMEOUT {
            i64::MAX
        } else {
            elapsed + READ_TIMEOUT
        };
        if response_timeout >= 0 && waited >= response_timeout {
            ResponseWait::TimedOut
        } else {
            ResponseWait::Wait(waited)
        }
    }
}

/// How often to try to connect, and whether to try once more.
pub fn try_connect(tries_left: u8, connected: bool) -> (again: Option<u8>)
    ensures
        again == if connected || tries_left <= 1 {
            None::<u8>
        } else {
            Some((tries_left - 1) as u8)
        },
{
    if connected || tries_left <= 1 {
        None
    } else {
        Some(tries_left - 1)
    }
}

} // verus!
