use vstd::prelude::*;
use crate::protocol::text::{decode_utf8_lossy, lossy_utf8};

verus! {

pub const SCRIPTSLOG_FILE_NAME: &'static str = "scriptslog.txt";

/// Where a game that runs under Steam on Linux keeps the documents of its user, from
/// the home directory on.
pub const LINUX_STEAM_PFX_PATH: &'static str =
    ".local/share/Steam/steamapps/compatdata/292030/pfx/drive_c/users/steamuser/Documents";

/// What `str::trim` leaves of a text.
pub uninterp spec fn trimmed(text: Seq<char>) -> Seq<char>;

/// `str::trim`: the text without the white space at its start and at its end.
#[verifier::external_body]
fn trim_text(text: &str) -> (inner: String)
    ensures
        inner@ == trimmed(text@),
{
    text.trim().to_string()
}

/// From where the script log is read next: from where the last reading ended, or from
/// the start of the file where the file has become shorter than that, which means that
/// it has been cleared since.
pub open spec fn read_position(last_pos: u64, filesize: u64) -> u64 {
    if last_pos > filesize {
        0
    } else {
        last_pos
    }
}

/// From where to read the script log next.
pub fn tail_position(last_pos: u64, filesize: u64) -> (from: u64)
    ensures
        from == read_position(last_pos, filesize),
{
    if last_pos > filesize {
        0
    } else {
        last_pos
    }
}

/// The text that an optional string holds.
pub open spec fn optional_text(text: Option<String>) -> Option<Seq<char>> {
    match text {
        Some(text) => Some(text@),
        None => None,
    }
}

/// The text to print for the bytes that a reading of the script log gave: none where
/// there are no bytes, and else what the bytes hold without white space around it.
pub open spec fn tail_text(buffer: Seq<u8>) -> Option<Seq<char>> {
    if buffer.len() == 0 {
        None
    } else {
        Some(trimmed(lossy_utf8(buffer)))
    }
}

/// What a reading of the script log gives.
pub struct TailStep {
    /// Where the reading ended.
    pub last_pos: u64,
    /// The text to print, if anything was read.
    pub text: Option<String>,
}

/// Takes in the bytes that were read from the script log from a position on: gives
/// the position behind them, and the text to print if any bytes were read, which is
/// what the bytes hold without white space around it.
pub fn tail_scriptslog(read_from: u64, buffer: &[u8]) -> (step: TailStep)
    requires
        read_from + buffer.len() <= u64::MAX,
    ensures
        step.last_pos == read_from + buffer.len(),
        optional_text(step.text) == tail_text(buffer@),
{
    if buffer.len() > 0 {
        let text = decode_utf8_lossy(buffer);
        TailStep {
            last_pos: read_from + buffer.len() as u64,
            text: Some(trim_text(text.as_str())),
        }
    } else {
        TailStep { last_pos: read_from, text: None }
    }
}

/// Takes in the bytes that were read from the script log, if their number can be
/// added to the position; gives nothing where it cannot.
pub fn try_tail_scriptslog(read_from: u64, buffer: &[u8]) -> (step: Option<TailStep>)
    ensures
        match step {
            Some(s) => read_from + buffer.len() <= u64::MAX && s.last_pos == read_from
                + buffer.len() && optional_text(s.text) == tail_text(buffer@),
            None => read_from + buffer.len() > u64::MAX,
        },
{
    if buffer.len() as u64 <= u64::MAX - read_from {
        Some(tail_scriptslog(read_from, buffer))
    } else {
        None
    }
}

} // verus!
