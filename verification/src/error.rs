//! Failure values of the codec.

use vstd::prelude::*;

verus! {

/// Why a buffer was rejected. Every failure is local and is handed back to
/// the caller; nothing is retried and no partial frame is produced.
#[derive(Clone, Copy, Debug, PartialEq, Eq, Structural)]
pub enum AprsError {
    /// A text frame lacks its `>` or `:` delimiter.
    MalformedText,
    /// An AX.25 addressing block is too short or not a whole number of
    /// seven-octet fields.
    MalformedAddressing,
    /// A callsign is empty, has a character that is not an ASCII letter or
    /// digit, has more than one `-`, or has an SSID outside 0..=15.
    InvalidCallsign,
    /// The leading octet of an information field has no known category.
    UnknownInformationCategory,
    /// The trailing sixteen bits do not match the frame check sequence.
    ChecksumMismatch,
}

} // verus!
