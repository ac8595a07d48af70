//! Callsign validation and the APRS-IS passcode.

use vstd::prelude::*;
use vstd::string::StringSliceAdditionalSpecFns;
use vstd::utf8::is_ascii_chars;
use crate::functions::{core_ok, scan_core, ssid_text};
use crate::text::{ascii_byte, char_is_white_space, chars_of, is_white_space};

verus! {

/// A character that is trimmed from either end of a callsign before it is
/// validated: `*` or white space.
pub open spec fn is_edge_char(c: char) -> bool {
    c == '*' || is_white_space(c)
}

/// `s` without its leading `*` and white space.
pub open spec fn strip_front(s: Seq<char>) -> Seq<char>
    decreases s.len(),
{
    if s.len() > 0 && is_edge_char(s[0]) {
        strip_front(s.drop_first())
    } else {
        s
    }
}

/// `s` without its trailing `*` and white space.
pub open spec fn strip_back(s: Seq<char>) -> Seq<char>
    decreases s.len(),
{
    if s.len() > 0 && is_edge_char(s.last()) {
        strip_back(s.drop_last())
    } else {
        s
    }
}

/// `s` without the `*` and white space at either end.
pub open spec fn stripped(s: Seq<char>) -> Seq<char> {
    strip_back(strip_front(s))
}

/// The bytes of ASCII characters, one per character.
pub open spec fn bytes_of_chars(s: Seq<char>) -> Seq<u8> {
    Seq::new(s.len(), |i: int| s[i] as u8)
}

/// Whether a callsign is valid on the air: between the `*` and white space
/// at its ends it is ASCII and holds three to six letters or digits and then
/// nothing, or one `-` and an SSID of one or two digits that is at most 15.
pub open spec fn valid_callsign_spec(s: Seq<char>) -> bool {
    let core = stripped(s);
    &&& is_ascii_chars(core)
    &&& core_ok(bytes_of_chars(core))
    &&& ssid_text(bytes_of_chars(core)).len() <= 2
}

/// Validates a callsign as it goes over the air.
pub fn valid_callsign(callsign: &str) -> (r: bool)
    ensures
        r == valid_callsign_spec(callsign@),
{
    let chars = chars_of(callsign);
    let mut start: usize = 0;
    proof {
        assert(chars@.subrange(0, chars@.len() as int) =~= chars@);
    }
    while start < chars.len() && (chars[start] == '*' || char_is_white_space(chars[start]))
        invariant
            start <= chars@.len(),
            strip_front(chars@) == strip_front(chars@.subrange(start as int, chars@.len() as int)),
        decreases chars@.len() - start,
    {
        proof {
            assert(chars@.subrange(start as int, chars@.len() as int).drop_first()
                =~= chars@.subrange(start + 1, chars@.len() as int));
        }
        start += 1;
    }
    let mut end: usize = chars.len();
    while end > start && (chars[end - 1] == '*' || char_is_white_space(chars[end - 1]))
        invariant
            start <= end <= chars@.len(),
            stripped(chars@) == strip_back(chars@.subrange(start as int, end as int)),
        decreases end,
    {
        proof {
            assert(chars@.subrange(start as int, end as int).drop_last() =~= chars@.subrange(
                start as int,
                end - 1,
            ));
        }
        end -= 1;
    }
    let ghost core = chars@.subrange(start as int, end as int);
    let mut bytes: Vec<u8> = Vec::new();
    let mut i: usize = start;
    while i < end
        invariant
            start <= i <= end <= chars@.len(),
            core == chars@.subrange(start as int, end as int),
            core == stripped(callsign@),
            bytes@.len() == i - start,
            forall|k: int| 0 <= k < i - start ==> '\0' <= #[trigger] core[k] <= '\u{7f}',
            forall|k: int| 0 <= k < i - start ==> #[trigger] bytes@[k] == core[k] as u8,
        decreases end - i,
    {
        match ascii_byte(chars[i]) {
            Some(b) => {
                bytes.push(b);
            },
            None => {
                assert(!('\0' <= core[i - start] <= '\u{7f}'));
                return false;
            },
        }
        i += 1;
    }
    proof {
        assert(bytes@ =~= bytes_of_chars(core));
    }
    match scan_core(bytes.as_slice()) {
        Some(parts) => parts.ssid_len <= 2,
        None => false,
    }
}

/// A lower-case ASCII letter as upper case, any other byte as it is.
pub open spec fn upper(b: u8) -> u8 {
    if 0x61 <= b <= 0x7A {
        (b - 0x20) as u8
    } else {
        b
    }
}

/// The key that the passcode hash starts from.
pub const PASSCODE_KEY: u16 = 0x73e2;

/// The passcode hash before its top bit is masked off: starting from the
/// key, every byte is made upper case and folded in, those at even
/// positions into the high octet and those at odd positions into the low.
pub open spec fn passcode_hash(bytes: Seq<u8>) -> u16
    decreases bytes.len(),
{
    if bytes.len() == 0 {
        PASSCODE_KEY
    } else {
        let before = passcode_hash(bytes.drop_last());
        let b = upper(bytes.last()) as u16;
        if (bytes.len() - 1) % 2 == 0 {
            before ^ (b << 8u16)
        } else {
            before ^ b
        }
    }
}

/// The APRS-IS passcode of a valid callsign; `None` for any other text.
pub fn aprspass(callsign: &str) -> (r: Option<u16>)
    ensures
        r == if valid_callsign_spec(callsign@) {
            Some(passcode_hash(callsign.spec_bytes()) & 0x7fff)
        } else {
            None::<u16>
        },
{
    if !valid_callsign(callsign) {
        return None;
    }
    let bytes: &[u8] = callsign.as_bytes();
    let mut hash: u16 = PASSCODE_KEY;
    let mut high: bool = true;
    let mut i: usize = 0;
    while i < bytes.len()
        invariant
            i <= bytes@.len(),
            high == (i % 2 == 0),
            hash == passcode_hash(bytes@.take(i as int)),
        decreases bytes@.len() - i,
    {
        let raw: u8 = bytes[i];
        let b: u8 = if 0x61 <= raw && raw <= 0x7A {
            raw - 0x20
        } else {
            raw
        };
        proof {
            assert(bytes@.take(i + 1).drop_last() =~= bytes@.take(i as int));
        }
        if high {
            hash = hash ^ ((b as u16) << 8);
        } else {
            hash = hash ^ (b as u16);
        }
        high = !high;
        i += 1;
    }
    proof {
        assert(bytes@.take(bytes@.len() as int) =~= bytes@);
    }
    Some(hash & 0x7fff)
}

} // verus!
