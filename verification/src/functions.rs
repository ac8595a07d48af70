//! Frame parsers: the text form, the AX.25 form, and their parts.

use vstd::prelude::*;
use vstd::slice::slice_subrange;
use vstd::utf8::{encode_utf8, is_ascii_chars_encode_utf8};
use crate::constants::{
    AX25_CONTROL_FIELD, AX25_PROTOCOL_ID, KISS_DATA_FRAME, TRAILER_FIRST, TRAILER_SECOND,
};
use crate::error::AprsError;
use crate::structs::{
    Callsign, CallsignView, Category, Frame, FrameView, InformationField, InformationFieldView,
    callsign_views, encode_callsign, encode_path, padded_call, shifted_left, ssid_octet,
    well_formed,
};
use crate::text::{
    COLON, COMMA, DASH, GREATER, SPACE, STAR, all_alnum, byte_is_alnum, byte_is_digit,
    chars_of_bytes, find_byte, index_from, is_alnum, is_digit, string_of_bytes, trim_bounds,
    trimmed,
};

verus! {

/// The category that a leading octet stands for, if it stands for one:
/// `>` status, `!` position without timestamp or messaging, `=` position
/// without timestamp but with messaging, `T` telemetry, `;` object, and the
/// backquote old Mic-E data.
pub open spec fn category_of(b: u8) -> Option<Category> {
    if b == 0x3E {
        Some(Category::Status)
    } else if b == 0x21 {
        Some(Category::PositionNoTsNoMsg)
    } else if b == 0x3D {
        Some(Category::PositionNoTsMsg)
    } else if b == 0x54 {
        Some(Category::Telemetry)
    } else if b == 0x3B {
        Some(Category::Object)
    } else if b == 0x60 {
        Some(Category::OldMice)
    } else {
        None
    }
}

/// Looks a leading octet up in the symbol table.
pub fn lookup_category(b: u8) -> (r: Option<Category>)
    ensures
        r == category_of(b),
{
    if b == 0x3E {
        Some(Category::Status)
    } else if b == 0x21 {
        Some(Category::PositionNoTsNoMsg)
    } else if b == 0x3D {
        Some(Category::PositionNoTsMsg)
    } else if b == 0x54 {
        Some(Category::Telemetry)
    } else if b == 0x3B {
        Some(Category::Object)
    } else if b == 0x60 {
        Some(Category::OldMice)
    } else {
        None
    }
}

/// What wire bytes are tagged as: the category of the leading octet, or an
/// error where there is no leading octet or it stands for nothing.
pub open spec fn tag_spec(data: Seq<u8>) -> Result<InformationFieldView, AprsError> {
    if data.len() > 0 && category_of(data[0]) is Some {
        Ok(InformationFieldView { data: data, data_type: category_of(data[0])->0, safe: true })
    } else {
        Err(AprsError::UnknownInformationCategory)
    }
}

/// A copy of a byte slice.
pub fn copy_bytes(s: &[u8]) -> (r: Vec<u8>)
    ensures
        r@ == s@,
{
    let mut out: Vec<u8> = Vec::new();
    let mut i: usize = 0;
    while i < s.len()
        invariant
            i <= s@.len(),
            out@ == s@.take(i as int),
        decreases s@.len() - i,
    {
        out.push(s[i]);
        proof {
            assert(out@ =~= s@.take(i + 1));
        }
        i += 1;
    }
    proof {
        assert(s@.take(s@.len() as int) =~= s@);
    }
    out
}

/// Tags an information field that came off the wire.
pub fn parse_info_field(raw_data: &[u8]) -> (r: Result<InformationField, AprsError>)
    ensures
        r is Ok <==> tag_spec(raw_data@) is Ok,
        r is Ok ==> r->Ok_0@ == tag_spec(raw_data@)->Ok_0,
        r is Err ==> r->Err_0 == AprsError::UnknownInformationCategory,
{
    if raw_data.len() == 0 {
        return Err(AprsError::UnknownInformationCategory);
    }
    match lookup_category(raw_data[0]) {
        Some(category) => Ok(
            InformationField { data: copy_bytes(raw_data), data_type: category, safe: true },
        ),
        None => Err(AprsError::UnknownInformationCategory),
    }
}

/// Puts an information field together from a payload and a declared type
/// octet. A type octet that stands for nothing gives the category `Unknown`.
pub fn default_data_handler(data: &[u8], data_type: u8) -> (r: InformationField)
    ensures
        r@.data == data@,
        r@.safe == false,
        r@.data_type == (match category_of(data_type) {
            Some(c) => c,
            None => Category::Unknown,
        }),
{
    let category = match lookup_category(data_type) {
        Some(c) => c,
        None => Category::Unknown,
    };
    InformationField { data: copy_bytes(data), data_type: category, safe: false }
}

/// The number that decimal digits write.
pub open spec fn digits_value(digits: Seq<u8>) -> int
    decreases digits.len(),
{
    if digits.len() == 0 {
        0
    } else {
        10 * digits_value(digits.drop_last()) + (digits.last() - 0x30)
    }
}

/// Whether every byte of `s` is an ASCII digit.
pub open spec fn all_digits(s: Seq<u8>) -> bool {
    forall|i: int| 0 <= i < s.len() ==> is_digit(#[trigger] s[i])
}

/// Whether `digits` is at least one ASCII digit and writes a number up to 15.
pub open spec fn ssid_text_ok(digits: Seq<u8>) -> bool {
    &&& digits.len() >= 1
    &&& all_digits(digits)
    &&& digits_value(digits) <= 15
}

/// More digits never write a smaller number.
pub proof fn lemma_digits_value_grows(digits: Seq<u8>, k: int)
    requires
        all_digits(digits),
        0 <= k <= digits.len(),
    ensures
        0 <= digits_value(digits.take(k)) <= digits_value(digits),
    decreases digits.len(),
{
    if digits.len() > 0 {
        let shorter = digits.drop_last();
        let j = if k < digits.len() {
            k
        } else {
            k - 1
        };
        assert(is_digit(digits[digits.len() - 1]));
        assert(all_digits(shorter)) by {
            assert forall|i: int| 0 <= i < shorter.len() implies is_digit(
                #[trigger] shorter[i],
            ) by {
                assert(is_digit(digits[i]));
            }
        }
        lemma_digits_value_grows(shorter, j);
        if k < digits.len() {
            assert(shorter.take(k) =~= digits.take(k));
        } else {
            assert(digits.take(k) =~= digits);
            assert(shorter.take(j) =~= shorter);
        }
    } else {
        assert(digits.take(k) =~= digits);
    }
}

/// Reads an SSID: decimal digits that write a number from 0 to 15.
pub fn parse_ssid(digits: &[u8]) -> (r: Option<u8>)
    ensures
        r is Some <==> ssid_text_ok(digits@),
        r is Some ==> r->0 == digits_value(digits@),
{
    if digits.len() == 0 {
        return None;
    }
    let mut value: u8 = 0;
    let mut i: usize = 0;
    proof {
        assert(digits@.take(0) =~= Seq::<u8>::empty());
    }
    while i < digits.len()
        invariant
            i <= digits@.len(),
            value == digits_value(digits@.take(i as int)),
            value <= 15,
            all_digits(digits@.take(i as int)),
        decreases digits@.len() - i,
    {
        let b: u8 = digits[i];
        proof {
            assert(digits@.take(i + 1).drop_last() =~= digits@.take(i as int));
        }
        if !byte_is_digit(b) {
            assert(!is_digit(digits@[i as int]));
            return None;
        }
        assert(all_digits(digits@.take(i + 1))) by {
            assert forall|k: int| 0 <= k < i + 1 implies is_digit(
                #[trigger] digits@.take(i + 1)[k],
            ) by {
                if k < i {
                    assert(is_digit(digits@.take(i as int)[k]));
                }
            }
        }
        let next: u8 = 10 * value + (b - 0x30);
        if next > 15 {
            proof {
                if all_digits(digits@) {
                    lemma_digits_value_grows(digits@, i + 1);
                }
            }
            return None;
        }
        value = next;
        i += 1;
    }
    proof {
        assert(digits@.take(digits@.len() as int) =~= digits@);
    }
    Some(value)
}

/// The text after the `-` of a trimmed callsign text; empty where there is
/// no `-`.
pub open spec fn ssid_text(core: Seq<u8>) -> Seq<u8> {
    let dash = index_from(core, DASH, 0);
    if dash < core.len() {
        core.subrange(dash + 1, core.len() as int)
    } else {
        Seq::<u8>::empty()
    }
}

/// The SSID that a trimmed callsign text gives: 0 where there is no `-`.
pub open spec fn text_ssid(core: Seq<u8>) -> int {
    digits_value(ssid_text(core))
}

/// Whether a trimmed callsign text is well written: three to six ASCII
/// letters or digits and then nothing, or one `-` and an SSID in decimal
/// digits that is at most 15. A second `-`, a sign or a blank in the SSID is
/// no digit, and so rejected.
pub open spec fn core_ok(core: Seq<u8>) -> bool {
    let dash = index_from(core, DASH, 0);
    &&& 3 <= dash <= 6
    &&& all_alnum(core.subrange(0, dash))
    &&& dash < core.len() ==> ssid_text_ok(ssid_text(core))
}

/// Whether a callsign text is accepted by the decoder: without the white
/// space at its ends and the `*` at its end it is well written.
pub open spec fn text_callsign_ok(s: Seq<u8>) -> bool {
    core_ok(trimmed(s))
}

/// What a callsign text decodes to. The call is the text before the `-`. The
/// repeated flag is set where the text holds a `*`, which in an accepted
/// text can only stand at the end.
pub open spec fn decode_text_spec(s: Seq<u8>) -> Result<CallsignView, AprsError> {
    let core = trimmed(s);
    let dash = index_from(core, DASH, 0);
    if text_callsign_ok(s) {
        Ok(
            CallsignView {
                call: chars_of_bytes(core.subrange(0, dash)),
                ssid: text_ssid(core) as u8,
                digi: index_from(s, STAR, 0) < s.len(),
            },
        )
    } else {
        Err(AprsError::InvalidCallsign)
    }
}

/// The parts of a well-written trimmed callsign text: where the call ends,
/// the SSID, and how many bytes wrote it.
pub struct CoreParts {
    pub dash: usize,
    pub ssid: u8,
    pub ssid_len: usize,
}

/// Scans a trimmed callsign text without building anything.
pub fn scan_core(core: &[u8]) -> (r: Option<CoreParts>)
    ensures
        r is Some <==> core_ok(core@),
        r is Some ==> {
            let p = r->0;
            &&& p.dash == index_from(core@, DASH, 0)
            &&& p.dash <= core@.len()
            &&& p.ssid == text_ssid(core@)
            &&& p.ssid_len == ssid_text(core@).len()
        },
{
    let dash: usize = find_byte(core, DASH, 0);
    if dash < 3 || dash > 6 {
        return None;
    }
    let mut i: usize = 0;
    while i < dash
        invariant
            i <= dash <= core@.len(),
            dash == index_from(core@, DASH, 0),
            forall|k: int| 0 <= k < i ==> is_alnum(#[trigger] core@[k]),
        decreases dash - i,
    {
        if !byte_is_alnum(core[i]) {
            assert(!is_alnum(core@.subrange(0, dash as int)[i as int]));
            return None;
        }
        i += 1;
    }
    assert(all_alnum(core@.subrange(0, dash as int)));
    let mut ssid: u8 = 0;
    let mut ssid_len: usize = 0;
    if dash < core.len() {
        match parse_ssid(slice_subrange(core, dash + 1, core.len())) {
            Some(value) => {
                ssid = value;
                ssid_len = core.len() - dash - 1;
            },
            None => {
                return None;
            },
        }
    }
    Some(CoreParts { dash: dash, ssid: ssid, ssid_len: ssid_len })
}

/// Decodes a callsign from its text form `CALL[-SSID][*]`.
pub fn parse_callsign_text(raw_callsign: &[u8]) -> (r: Result<Callsign, AprsError>)
    ensures
        r is Ok <==> decode_text_spec(raw_callsign@) is Ok,
        r is Ok ==> r->Ok_0@ == decode_text_spec(raw_callsign@)->Ok_0,
        r is Err ==> r->Err_0 == AprsError::InvalidCallsign,
{
    let (start, end) = trim_bounds(raw_callsign);
    let core: &[u8] = slice_subrange(raw_callsign, start, end);
    match scan_core(core) {
        Some(parts) => {
            let call: &[u8] = slice_subrange(core, 0, parts.dash);
            let star: usize = find_byte(raw_callsign, STAR, 0);
            Ok(
                Callsign {
                    callsign: string_of_bytes(call),
                    ssid: parts.ssid,
                    digi: star < raw_callsign.len(),
                },
            )
        },
        None => Err(AprsError::InvalidCallsign),
    }
}

/// Decodes a callsign from its text form.
pub fn parse_callsign(raw_callsign: &[u8]) -> (r: Result<Callsign, AprsError>)
    ensures
        r is Ok <==> decode_text_spec(raw_callsign@) is Ok,
        r is Ok ==> r->Ok_0@ == decode_text_spec(raw_callsign@)->Ok_0,
        r is Err ==> r->Err_0 == AprsError::InvalidCallsign,
{
    parse_callsign_text(raw_callsign)
}

/// The octets of an address field, each shifted right by one bit, without
/// those that are then no ASCII letter or digit.
pub open spec fn shifted_alnum(field: Seq<u8>) -> Seq<u8>
    decreases field.len(),
{
    if field.len() == 0 {
        Seq::<u8>::empty()
    } else {
        let rest = shifted_alnum(field.drop_last());
        let b = field.last() >> 1u8;
        if is_alnum(b) {
            rest.push(b)
        } else {
            rest
        }
    }
}

/// The repeated flag of an SSID octet: bit 7 of the octet as it stands, or,
/// for bytes that came through KISS, bit 7 of the octet shifted right by one.
pub open spec fn digi_bit(octet: u8, kiss: bool) -> bool {
    if kiss {
        ((octet >> 1u8) & 0x80u8) != 0
    } else {
        (octet & 0x80u8) != 0
    }
}

/// What an address field of at least seven octets decodes to.
pub open spec fn decode_ax25_spec(field: Seq<u8>, kiss: bool) -> CallsignView {
    CallsignView {
        call: chars_of_bytes(shifted_alnum(field.subrange(0, 6))),
        ssid: (field[6] >> 1u8) & 0x0Fu8,
        digi: digi_bit(field[6], kiss),
    }
}

/// Decodes a callsign from the first seven octets of an AX.25 address field.
/// `kiss_call` says whether the bytes came through a KISS transport.
pub fn parse_callsign_ax25(raw_callsign: &[u8], kiss_call: bool) -> (r: Result<
    Callsign,
    AprsError,
>)
    ensures
        r is Ok <==> raw_callsign@.len() >= 7,
        r is Ok ==> r->Ok_0@ == decode_ax25_spec(raw_callsign@, kiss_call),
        r is Err ==> r->Err_0 == AprsError::MalformedAddressing,
{
    if raw_callsign.len() < 7 {
        return Err(AprsError::MalformedAddressing);
    }
    let mut call: Vec<u8> = Vec::new();
    let mut i: usize = 0;
    while i < 6
        invariant
            i <= 6,
            raw_callsign@.len() >= 7,
            call@ == shifted_alnum(raw_callsign@.subrange(0, i as int)),
        decreases 6 - i,
    {
        let chunk: u8 = raw_callsign[i] >> 1;
        proof {
            assert(raw_callsign@.subrange(0, i + 1).drop_last() =~= raw_callsign@.subrange(
                0,
                i as int,
            ));
        }
        if byte_is_alnum(chunk) {
            call.push(chunk);
        }
        i += 1;
    }
    let seven_chunk: u8 = raw_callsign[6];
    let ssid: u8 = (seven_chunk >> 1) & 0x0F;
    let digi: bool = if kiss_call {
        ((seven_chunk >> 1) & 0x80) != 0
    } else {
        (seven_chunk & 0x80) != 0
    };
    Ok(Callsign { callsign: string_of_bytes(call.as_slice()), ssid: ssid, digi: digi })
}

/// Shifting alphanumeric bytes left and decoding them gives them back.
proof fn lemma_shifted_alnum_of_call(bytes: Seq<u8>)
    requires
        all_alnum(bytes),
    ensures
        shifted_alnum(shifted_left(bytes)) == bytes,
    decreases bytes.len(),
{
    if bytes.len() > 0 {
        let b = bytes.last();
        assert(shifted_left(bytes).drop_last() =~= shifted_left(bytes.drop_last()));
        lemma_shifted_alnum_of_call(bytes.drop_last());
        assert(is_alnum(b));
        assert(b < 128 ==> ((b << 1u8) >> 1u8) == b) by (bit_vector);
        assert(shifted_alnum(shifted_left(bytes)) =~= bytes);
    } else {
        assert(shifted_alnum(shifted_left(bytes)) =~= bytes);
    }
}

/// Padding does not survive decoding.
proof fn lemma_shifted_alnum_of_padded(bytes: Seq<u8>, pad: nat)
    requires
        all_alnum(bytes),
    ensures
        shifted_alnum(shifted_left(bytes + Seq::new(pad, |i: int| SPACE))) == bytes,
    decreases pad,
{
    let padded = bytes + Seq::new(pad, |i: int| SPACE);
    if pad == 0 {
        assert(padded =~= bytes);
        lemma_shifted_alnum_of_call(bytes);
    } else {
        let shorter = bytes + Seq::new((pad - 1) as nat, |i: int| SPACE);
        assert(shifted_left(padded).drop_last() =~= shifted_left(shorter));
        lemma_shifted_alnum_of_padded(bytes, (pad - 1) as nat);
        assert(((0x20u8 << 1u8) >> 1u8) == 0x20u8) by (bit_vector);
        assert(shifted_left(padded).last() == 0x20u8 << 1u8);
    }
}

/// Encoding a well-formed callsign and decoding the seven octets gives the
/// callsign back: always for bytes that did not come through KISS, and for
/// bytes that did wherever the callsign is not marked as repeated (the bit
/// that KISS decoding reads is never set by the encoder).
pub proof fn lemma_callsign_round_trip(c: CallsignView, kiss: bool)
    requires
        well_formed(c),
        kiss ==> !c.digi,
    ensures
        encode_callsign(c).len() == 7,
        decode_ax25_spec(encode_callsign(c), kiss) == c,
{
    let bytes = encode_utf8(c.call);
    is_ascii_chars_encode_utf8(c.call);
    assert(all_alnum(bytes)) by {
        assert forall|i: int| 0 <= i < bytes.len() implies is_alnum(#[trigger] bytes[i]) by {
            assert(is_alnum(c.call[i] as u8));
        }
    }
    let field = encode_callsign(c);
    let pad = (6 - bytes.len()) as nat;
    assert(padded_call(bytes) =~= bytes + Seq::new(pad, |i: int| SPACE));
    assert(field.subrange(0, 6) =~= shifted_left(padded_call(bytes)));
    lemma_shifted_alnum_of_padded(bytes, pad);
    assert(chars_of_bytes(bytes) =~= c.call) by {
        assert forall|i: int| 0 <= i < bytes.len() implies (bytes[i] as char) == c.call[i] by {
            assert('\0' <= c.call[i] <= '\u{7f}');
        }
    }
    let ssid = c.ssid;
    let octet = ssid_octet(ssid, c.digi);
    assert(field[6] == octet);
    assert(ssid <= 15 ==> (((ssid << 1u8) | 0x60u8) >> 1u8) & 0x0Fu8 == ssid && (((ssid << 1u8)
        | 0x60u8) & 0x80u8) == 0 && ((((ssid << 1u8) | 0x60u8) >> 1u8) & 0x80u8) == 0 && ((((ssid
        << 1u8) | 0x60u8) | 0x80u8) >> 1u8) & 0x0Fu8 == ssid && ((((ssid << 1u8) | 0x60u8)
        | 0x80u8) & 0x80u8) != 0) by (bit_vector);
}

/// `s` without its leading KISS data-frame octets.
pub open spec fn strip_leading_kiss(s: Seq<u8>) -> Seq<u8>
    decreases s.len(),
{
    if s.len() > 0 && s[0] == KISS_DATA_FRAME {
        strip_leading_kiss(s.drop_first())
    } else {
        s
    }
}

/// `s` without its trailing KISS data-frame octets.
pub open spec fn strip_trailing_kiss(s: Seq<u8>) -> Seq<u8>
    decreases s.len(),
{
    if s.len() > 0 && s.last() == KISS_DATA_FRAME {
        strip_trailing_kiss(s.drop_last())
    } else {
        s
    }
}

/// The frame inside its KISS wrapping.
pub open spec fn kiss_payload(s: Seq<u8>) -> Seq<u8> {
    strip_trailing_kiss(strip_leading_kiss(s))
}

/// Whether a buffer starts or ends with a KISS data-frame octet.
pub open spec fn was_kiss(s: Seq<u8>) -> bool {
    s.len() > 0 && (s[0] == KISS_DATA_FRAME || s.last() == KISS_DATA_FRAME)
}

/// Takes the KISS data-frame octets off both ends of a buffer and says
/// whether there were any. Nothing inside the frame is looked at.
pub fn kiss_strip(raw: &[u8]) -> (r: (&[u8], bool))
    ensures
        r.0@ == kiss_payload(raw@),
        r.1 == was_kiss(raw@),
{
    let mut start: usize = 0;
    proof {
        assert(raw@.subrange(0, raw@.len() as int) =~= raw@);
    }
    while start < raw.len() && raw[start] == KISS_DATA_FRAME
        invariant
            start <= raw@.len(),
            strip_leading_kiss(raw@) == strip_leading_kiss(
                raw@.subrange(start as int, raw@.len() as int),
            ),
        decreases raw@.len() - start,
    {
        proof {
            assert(raw@.subrange(start as int, raw@.len() as int).drop_first()
                =~= raw@.subrange(start + 1, raw@.len() as int));
        }
        start += 1;
    }
    let mut end: usize = raw.len();
    while end > start && raw[end - 1] == KISS_DATA_FRAME
        invariant
            start <= end <= raw@.len(),
            kiss_payload(raw@) == strip_trailing_kiss(raw@.subrange(start as int, end as int)),
        decreases end,
    {
        proof {
            assert(raw@.subrange(start as int, end as int).drop_last() =~= raw@.subrange(
                start as int,
                end - 1,
            ));
        }
        end -= 1;
    }
    let kiss: bool = raw.len() > 0 && (raw[0] == KISS_DATA_FRAME || raw[raw.len() - 1]
        == KISS_DATA_FRAME);
    (slice_subrange(raw, start, end), kiss)
}

/// The first index at or after `from` where the control field is followed
/// by the protocol identifier; the length of `s` where there is none.
pub open spec fn delim_from(s: Seq<u8>, from: int) -> int
    decreases s.len() - from,
{
    if from + 1 >= s.len() {
        s.len() as int
    } else if s[from] == AX25_CONTROL_FIELD && s[from + 1] == AX25_PROTOCOL_ID {
        from
    } else {
        delim_from(s, from + 1)
    }
}

/// Finds the first address/information delimiter.
pub fn find_delim(s: &[u8]) -> (r: usize)
    ensures
        r == delim_from(s@, 0),
        r <= s@.len(),
        r < s@.len() ==> r + 1 < s@.len() && s@[r as int] == AX25_CONTROL_FIELD && s@[r + 1]
            == AX25_PROTOCOL_ID,
{
    if s.len() < 2 {
        return s.len();
    }
    let last: usize = s.len() - 1;
    let mut i: usize = 0;
    while i < last && !(s[i] == AX25_CONTROL_FIELD && s[i + 1] == AX25_PROTOCOL_ID)
        invariant
            i <= last,
            last + 1 == s@.len(),
            delim_from(s@, 0) == delim_from(s@, i as int),
        decreases last - i,
    {
        i += 1;
    }
    if i < last {
        i
    } else {
        s.len()
    }
}

/// How a buffer is framed.
#[derive(Clone, Copy, Debug, PartialEq, Eq, Structural)]
pub enum FrameMode {
    /// Binary AX.25, possibly wrapped in KISS.
    AX25Mode,
    /// The text form `SOURCE>DESTINATION[,PATH...]:INFO`.
    TextMode,
}

/// The framing of a buffer: AX.25 wherever the control field followed by
/// the protocol identifier occurs anywhere in it, text otherwise.
pub open spec fn mode_of(s: Seq<u8>) -> FrameMode {
    if delim_from(s, 0) < s.len() {
        FrameMode::AX25Mode
    } else {
        FrameMode::TextMode
    }
}

/// The delimiter search finds a delimiter exactly where one occurs.
pub proof fn lemma_delim_from_finds(s: Seq<u8>, from: int, at: int)
    requires
        0 <= from <= at,
        at + 1 < s.len(),
        s[at] == AX25_CONTROL_FIELD,
        s[at + 1] == AX25_PROTOCOL_ID,
    ensures
        from <= delim_from(s, from) <= at,
    decreases at - from,
{
    if from < at && !(s[from] == AX25_CONTROL_FIELD && s[from + 1] == AX25_PROTOCOL_ID) {
        lemma_delim_from_finds(s, from + 1, at);
    }
}

/// Where the delimiter search stops before the end, a delimiter stands.
pub proof fn lemma_delim_from_is_delim(s: Seq<u8>, from: int)
    requires
        0 <= from,
        delim_from(s, from) < s.len(),
    ensures
        from <= delim_from(s, from),
        delim_from(s, from) + 1 < s.len(),
        s[delim_from(s, from)] == AX25_CONTROL_FIELD,
        s[delim_from(s, from) + 1] == AX25_PROTOCOL_ID,
    decreases s.len() - from,
{
    if from + 1 < s.len() && !(s[from] == AX25_CONTROL_FIELD && s[from + 1] == AX25_PROTOCOL_ID) {
        lemma_delim_from_is_delim(s, from + 1);
    }
}

/// A buffer that holds the control field followed by the protocol identifier
/// anywhere, be it inside what was meant as text, counts as AX.25.
pub proof fn lemma_pair_means_ax25(s: Seq<u8>, at: int)
    requires
        0 <= at,
        at + 1 < s.len(),
        s[at] == AX25_CONTROL_FIELD,
        s[at + 1] == AX25_PROTOCOL_ID,
    ensures
        mode_of(s) == FrameMode::AX25Mode,
{
    lemma_delim_from_finds(s, 0, at);
}

/// A buffer counts as AX.25 only where the pair occurs in it.
pub proof fn lemma_ax25_means_pair(s: Seq<u8>)
    requires
        mode_of(s) == FrameMode::AX25Mode,
    ensures
        exists|at: int|
            0 <= at && at + 1 < s.len() && s[at] == AX25_CONTROL_FIELD && #[trigger] s[at + 1]
                == AX25_PROTOCOL_ID,
{
    lemma_delim_from_is_delim(s, 0);
    let at = delim_from(s, 0);
    assert(s[at + 1] == AX25_PROTOCOL_ID);
}

/// Tells the framing of a buffer by looking for the delimiter in it.
pub fn detect_mode(raw_frame: &[u8]) -> (r: FrameMode)
    ensures
        r == mode_of(raw_frame@),
{
    if find_delim(raw_frame) < raw_frame.len() {
        FrameMode::AX25Mode
    } else {
        FrameMode::TextMode
    }
}

/// In KISS context the repeated flag is never read as set: the bit looked at
/// is bit 7 of an octet that has just been shifted right.
pub proof fn lemma_kiss_never_repeated(octet: u8)
    ensures
        !digi_bit(octet, true),
{
    assert(((octet >> 1u8) & 0x80u8) == 0) by (bit_vector);
}

/// An information field without the two-octet sentinel that some transports
/// append.
pub open spec fn without_trailer(info: Seq<u8>) -> Seq<u8> {
    if info.len() >= 2 && info[info.len() - 2] == TRAILER_FIRST && info[info.len() - 1]
        == TRAILER_SECOND {
        info.subrange(0, info.len() - 2)
    } else {
        info
    }
}

/// The callsigns of a digipeater block, seven octets each. Path entries are
/// always read with the plain (not KISS) position of the repeated flag.
pub open spec fn decode_path(block: Seq<u8>) -> Seq<CallsignView> {
    Seq::new(
        (block.len() / 7) as nat,
        |i: int| decode_ax25_spec(block.subrange(7 * i, 7 * i + 7), false),
    )
}

/// Whether every callsign of a list is well formed.
pub open spec fn all_well_formed(path: Seq<CallsignView>) -> bool {
    forall|i: int| 0 <= i < path.len() ==> well_formed(#[trigger] path[i])
}

/// The address fields of well-formed callsigns lie one after the other,
/// seven octets each.
pub proof fn lemma_encode_path_fields(path: Seq<CallsignView>, i: int)
    requires
        all_well_formed(path),
        0 <= i < path.len(),
    ensures
        encode_path(path).len() == 7 * path.len(),
        encode_path(path).subrange(7 * i, 7 * i + 7) == encode_callsign(path[i]),
    decreases path.len(),
{
    let shorter = path.drop_last();
    assert(well_formed(path[path.len() - 1]));
    lemma_callsign_round_trip(path.last(), false);
    if path.len() == 1 {
        assert(encode_path(shorter) =~= Seq::<u8>::empty());
        assert(encode_path(path).subrange(0, 7) =~= encode_callsign(path[0]));
    } else {
        assert(all_well_formed(shorter)) by {
            assert forall|k: int| 0 <= k < shorter.len() implies well_formed(
                #[trigger] shorter[k],
            ) by {
                assert(well_formed(path[k]));
            }
        }
        if i < path.len() - 1 {
            lemma_encode_path_fields(shorter, i);
            assert(encode_path(path).subrange(7 * i, 7 * i + 7) =~= encode_path(shorter).subrange(
                7 * i,
                7 * i + 7,
            ));
        } else {
            lemma_encode_path_fields(shorter, 0);
            assert(encode_path(path).subrange(7 * i, 7 * i + 7) =~= encode_callsign(path[i]));
        }
    }
}

/// Decoding the encoded address fields of well-formed callsigns gives the
/// callsigns back, in their order.
pub proof fn lemma_path_round_trip(path: Seq<CallsignView>)
    requires
        all_well_formed(path),
    ensures
        encode_path(path).len() == 7 * path.len(),
        decode_path(encode_path(path)) == path,
{
    if path.len() == 0 {
        assert(decode_path(encode_path(path)) =~= path);
    } else {
        lemma_encode_path_fields(path, 0);
        assert forall|i: int| 0 <= i < path.len() implies decode_path(encode_path(path))[i]
            == path[i] by {
            lemma_encode_path_fields(path, i);
            assert(well_formed(path[i]));
            lemma_callsign_round_trip(path[i], false);
        }
        assert(decode_path(encode_path(path)) =~= path);
    }
}

/// What an AX.25 buffer parses to.
///
/// The buffer is taken out of its KISS wrapping and split at the first
/// delimiter. The addressing block before it must hold destination and
/// source and then a whole number of seven-octet path fields. The
/// information field after it loses a trailing sentinel and is tagged.
pub open spec fn parse_ax25_spec(s: Seq<u8>) -> Result<FrameView, AprsError> {
    let frame = kiss_payload(s);
    let kiss = was_kiss(s);
    let pos = delim_from(frame, 0);
    if pos >= frame.len() || pos < 14 || (pos - 14) % 7 != 0 {
        Err(AprsError::MalformedAddressing)
    } else {
        match tag_spec(without_trailer(frame.subrange(pos + 2, frame.len() as int))) {
            Err(e) => Err(e),
            Ok(info) => Ok(
                FrameView {
                    source: decode_ax25_spec(frame.subrange(7, 14), kiss),
                    destination: decode_ax25_spec(frame.subrange(0, 7), kiss),
                    path: decode_path(frame.subrange(14, pos)),
                    info: info,
                },
            ),
        }
    }
}

/// Whether a parse result is what is expected: the same
/// frame, or the same error.
pub open spec fn frame_result_is(
    r: Result<Frame, AprsError>,
    expected: Result<FrameView, AprsError>,
) -> bool {
    match (r, expected) {
        (Ok(frame), Ok(view)) => frame@ == view,
        (Err(e), Err(x)) => e == x,
        _ => false,
    }
}

/// Parses a binary AX.25 frame, with or without KISS wrapping.
pub fn parse_frame_ax25(raw_frame: &[u8]) -> (r: Result<Frame, AprsError>)
    ensures
        frame_result_is(r, parse_ax25_spec(raw_frame@)),
{
    let (frame, kiss_call) = kiss_strip(raw_frame);
    let info_pos: usize = find_delim(frame);
    if info_pos >= frame.len() || info_pos < 14 || (info_pos - 14) % 7 != 0 {
        return Err(AprsError::MalformedAddressing);
    }
    let mut info_field: &[u8] = slice_subrange(frame, info_pos + 2, frame.len());
    let n: usize = info_field.len();
    if n >= 2 && info_field[n - 2] == TRAILER_FIRST && info_field[n - 1] == TRAILER_SECOND {
        info_field = slice_subrange(info_field, 0, n - 2);
    }
    let dest: Callsign = match parse_callsign_ax25(slice_subrange(frame, 0, 7), kiss_call) {
        Ok(c) => c,
        Err(e) => {
            return Err(e);
        },
    };
    let src: Callsign = match parse_callsign_ax25(slice_subrange(frame, 7, 14), kiss_call) {
        Ok(c) => c,
        Err(e) => {
            return Err(e);
        },
    };
    let hops: &[u8] = slice_subrange(frame, 14, info_pos);
    let count: usize = hops.len() / 7;
    let mut path: Vec<Callsign> = Vec::new();
    let mut k: usize = 0;
    while k < count
        invariant
            k <= count,
            7 * count == hops@.len(),
            hops@.len() <= usize::MAX,
            path@.len() == k,
            forall|i: int|
                0 <= i < k ==> (#[trigger] path@[i])@ == decode_ax25_spec(
                    hops@.subrange(7 * i, 7 * i + 7),
                    false,
                ),
        decreases count - k,
    {
        match parse_callsign_ax25(slice_subrange(hops, 7 * k, 7 * k + 7), false) {
            Ok(c) => {
                path.push(c);
            },
            Err(e) => {
                return Err(e);
            },
        }
        k += 1;
    }
    proof {
        assert(callsign_views(path@) =~= decode_path(hops@));
    }
    match parse_info_field(info_field) {
        Ok(info) => Ok(Frame { source: src, destination: dest, path: path, info: info }),
        Err(e) => Err(e),
    }
}

/// The parts of `s` between its commas, in order. There is always at least
/// one part; a part may be empty.
pub open spec fn split_commas(s: Seq<u8>) -> Seq<Seq<u8>>
    decreases s.len(),
{
    if s.len() == 0 {
        seq![Seq::<u8>::empty()]
    } else {
        let head = split_commas(s.drop_last());
        if s.last() == COMMA {
            head.push(Seq::<u8>::empty())
        } else {
            head.update(head.len() - 1, head.last().push(s.last()))
        }
    }
}

/// Whether every part is an accepted callsign text.
pub open spec fn all_text_ok(parts: Seq<Seq<u8>>) -> bool {
    forall|i: int| 0 <= i < parts.len() ==> text_callsign_ok(#[trigger] parts[i])
}

/// The callsigns that accepted parts decode to.
pub open spec fn decode_parts(parts: Seq<Seq<u8>>) -> Seq<CallsignView> {
    Seq::new(parts.len(), |i: int| decode_text_spec(parts[i])->Ok_0)
}

/// Decodes a comma-separated list of callsign texts.
pub fn parse_address_list(addrs: &[u8]) -> (r: Result<Vec<Callsign>, AprsError>)
    ensures
        r is Ok <==> all_text_ok(split_commas(addrs@)),
        r is Ok ==> callsign_views(r->Ok_0@) == decode_parts(split_commas(addrs@)),
        r is Ok ==> r->Ok_0@.len() >= 1,
        r is Err ==> r->Err_0 == AprsError::InvalidCallsign,
{
    let mut list: Vec<Callsign> = Vec::new();
    let mut start: usize = 0;
    let mut i: usize = 0;
    proof {
        assert(addrs@.take(0) =~= Seq::<u8>::empty());
        assert(addrs@.subrange(0, 0) =~= Seq::<u8>::empty());
    }
    while i < addrs.len()
        invariant
            start <= i <= addrs@.len(),
            split_commas(addrs@.take(i as int)).len() == list@.len() + 1,
            split_commas(addrs@.take(i as int)).last() == addrs@.subrange(start as int, i as int),
            forall|k: int|
                0 <= k < list@.len() ==> decode_text_spec(
                    #[trigger] split_commas(addrs@.take(i as int))[k],
                ) == Ok::<CallsignView, AprsError>(list@[k]@),
        decreases addrs@.len() - i,
    {
        let ghost before = split_commas(addrs@.take(i as int));
        let ghost after = split_commas(addrs@.take(i + 1));
        proof {
            assert(addrs@.take(i + 1).drop_last() =~= addrs@.take(i as int));
        }
        if addrs[i] == COMMA {
            match parse_callsign_text(slice_subrange(addrs, start, i)) {
                Ok(c) => {
                    list.push(c);
                },
                Err(e) => {
                    proof {
                        lemma_split_commas_keeps(addrs@, i + 1, list@.len() as int);
                        assert(!text_callsign_ok(split_commas(addrs@)[list@.len() as int]));
                    }
                    return Err(AprsError::InvalidCallsign);
                },
            }
            start = i + 1;
            proof {
                assert(addrs@.subrange(start as int, start as int) =~= Seq::<u8>::empty());
            }
        } else {
            proof {
                assert(addrs@.subrange(start as int, i + 1) =~= addrs@.subrange(
                    start as int,
                    i as int,
                ).push(addrs@[i as int]));
            }
        }
        i += 1;
    }
    proof {
        assert(addrs@.take(addrs@.len() as int) =~= addrs@);
    }
    match parse_callsign_text(slice_subrange(addrs, start, addrs.len())) {
        Ok(c) => {
            list.push(c);
            proof {
                assert(callsign_views(list@) =~= decode_parts(split_commas(addrs@)));
            }
            Ok(list)
        },
        Err(e) => {
            proof {
                assert(!text_callsign_ok(split_commas(addrs@)[list@.len() as int]));
            }
            Err(AprsError::InvalidCallsign)
        },
    }
}

/// Parts that a comma has closed stay as they are when more text follows.
pub proof fn lemma_split_commas_keeps(s: Seq<u8>, i: int, k: int)
    requires
        0 <= i <= s.len(),
        0 <= k < split_commas(s.take(i)).len() - 1,
    ensures
        k < split_commas(s).len(),
        split_commas(s)[k] == split_commas(s.take(i))[k],
    decreases s.len() - i,
{
    if i < s.len() {
        assert(s.take(i + 1).drop_last() =~= s.take(i));
        lemma_split_commas_keeps(s, i + 1, k);
    } else {
        assert(s.take(i) =~= s);
    }
}

/// What a text frame `SOURCE>DESTINATION[,PATH...]:INFO` parses to.
///
/// The source ends at the first `>`, the address list at the first `:`,
/// which must come after it. The first address is the destination, the
/// others are the path. Where several parts are wrong, the source is
/// reported first, then the information field, then the address list.
pub open spec fn parse_text_spec(s: Seq<u8>) -> Result<FrameView, AprsError> {
    let gt = index_from(s, GREATER, 0);
    let colon = index_from(s, COLON, 0);
    if gt >= s.len() || colon >= s.len() || colon < gt {
        Err(AprsError::MalformedText)
    } else {
        let source = decode_text_spec(s.subrange(0, gt));
        let info = tag_spec(s.subrange(colon + 1, s.len() as int));
        let addrs = split_commas(s.subrange(gt + 1, colon));
        if source is Err {
            Err(AprsError::InvalidCallsign)
        } else if info is Err {
            Err(AprsError::UnknownInformationCategory)
        } else if !all_text_ok(addrs) {
            Err(AprsError::InvalidCallsign)
        } else {
            Ok(
                FrameView {
                    source: source->Ok_0,
                    destination: decode_text_spec(addrs[0])->Ok_0,
                    path: decode_parts(addrs).drop_first(),
                    info: info->Ok_0,
                },
            )
        }
    }
}

/// Parses a text frame.
pub fn parse_frame_text(raw_frame: &[u8]) -> (r: Result<Frame, AprsError>)
    ensures
        frame_result_is(r, parse_text_spec(raw_frame@)),
{
    let src_dest: usize = find_byte(raw_frame, GREATER, 0);
    let path_info: usize = find_byte(raw_frame, COLON, 0);
    if src_dest >= raw_frame.len() || path_info >= raw_frame.len() || path_info < src_dest {
        return Err(AprsError::MalformedText);
    }
    let source: Callsign = match parse_callsign_text(slice_subrange(raw_frame, 0, src_dest)) {
        Ok(c) => c,
        Err(e) => {
            return Err(AprsError::InvalidCallsign);
        },
    };
    let info: InformationField = match parse_info_field(
        slice_subrange(raw_frame, path_info + 1, raw_frame.len()),
    ) {
        Ok(f) => f,
        Err(e) => {
            return Err(AprsError::UnknownInformationCategory);
        },
    };
    let mut path: Vec<Callsign> = match parse_address_list(
        slice_subrange(raw_frame, src_dest + 1, path_info),
    ) {
        Ok(list) => list,
        Err(e) => {
            return Err(AprsError::InvalidCallsign);
        },
    };
    let ghost all = path@;
    let dest: Callsign = path.remove(0);
    proof {
        let addrs = split_commas(raw_frame@.subrange(src_dest + 1, path_info as int));
        assert(decode_parts(addrs)[0] == callsign_views(all)[0]);
        assert(callsign_views(path@) =~= decode_parts(addrs).drop_first()) by {
            assert forall|i: int| 0 <= i < path@.len() implies callsign_views(path@)[i]
                == decode_parts(addrs).drop_first()[i] by {
                assert(path@[i] == all[i + 1]);
                assert(callsign_views(all)[i + 1] == decode_parts(addrs)[i + 1]);
            }
        }
    }
    Ok(Frame { source: source, destination: dest, path: path, info: info })
}

/// What a buffer parses to: as AX.25 where it holds the delimiter, as text
/// otherwise.
pub open spec fn parse_frame_spec(s: Seq<u8>) -> Result<FrameView, AprsError> {
    match mode_of(s) {
        FrameMode::AX25Mode => parse_ax25_spec(s),
        FrameMode::TextMode => parse_text_spec(s),
    }
}

/// Parses a frame in either framing. A failed parse gives an error and no
/// frame.
pub fn parse_frame(raw_frame: &[u8]) -> (r: Result<Frame, AprsError>)
    ensures
        frame_result_is(r, parse_frame_spec(raw_frame@)),
{
    match detect_mode(raw_frame) {
        FrameMode::AX25Mode => parse_frame_ax25(raw_frame),
        FrameMode::TextMode => parse_frame_text(raw_frame),
    }
}

} // verus!
