//! Codec for APRS packet-radio frames: AX.25 addressing fields, KISS
//! de-framing, the frame check sequence, and the text form used on APRS-IS.
//!
//! Every function here is a pure transformation over in-memory buffers. The
//! contracts are stated over sequences of bytes, bits and characters, so that
//! what a frame decodes to is fixed by its bytes alone.

pub mod constants;
pub mod error;
pub mod fcs;
pub mod functions;
pub mod geo_util;
pub mod structs;
pub mod text;
pub mod util;
