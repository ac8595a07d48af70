//! Wire-format constants of AX.25 and KISS.

use vstd::prelude::*;

verus! {

/// AX.25 flag: the octet that separates frames on the link.
pub const AX25_FLAG: u8 = 0x7E;

/// AX.25 control field of a UI frame.
pub const AX25_CONTROL_FIELD: u8 = 0x03;

/// AX.25 protocol identifier for "no layer 3 protocol".
pub const AX25_PROTOCOL_ID: u8 = 0xF0;

/// KISS command code of a data frame.
pub const KISS_DATA_FRAME: u8 = 0x00;

/// First octet of the sentinel that some transports append to a frame.
pub const TRAILER_FIRST: u8 = 0xFF;

/// Second octet of the sentinel that some transports append to a frame.
pub const TRAILER_SECOND: u8 = 0x07;

/// Seed of the frame check sequence register.
pub const FCS_SEED: u16 = 0xFFFF;

/// Feedback constant of the frame check sequence (reflected CRC-16/X.25).
pub const FCS_POLYNOMIAL: u16 = 0x8408;

/// The two octets that end the addressing block and start the information
/// field: control field, then protocol identifier.
pub const ADDR_INFO_DELIM: [u8; 2] = [0x03, 0xF0];

} // verus!
