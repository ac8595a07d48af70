//! The data types of a frame and their AX.25 encoding.

use vstd::prelude::*;
use vstd::utf8::{encode_utf8, is_ascii_chars};
use crate::constants::AX25_FLAG;
use crate::error::AprsError;
use crate::text::{SPACE, is_alnum};
use crate::functions::{
    decode_text_spec, parse_callsign, parse_info_field, tag_spec, text_callsign_ok,
};

verus! {

/// What an information field carries, told by its leading octet.
#[derive(Clone, Copy, Debug, PartialEq, Eq, Structural)]
pub enum Category {
    Status,
    PositionNoTsNoMsg,
    PositionNoTsMsg,
    Telemetry,
    Object,
    OldMice,
    Unknown,
}

/// The name that a category goes by.
pub open spec fn category_name(c: Category) -> Seq<char> {
    match c {
        Category::Status => "status"@,
        Category::PositionNoTsNoMsg => "position_nots_nomsg"@,
        Category::PositionNoTsMsg => "position_nots_msg"@,
        Category::Telemetry => "telemetry"@,
        Category::Object => "object"@,
        Category::OldMice => "old_mice"@,
        Category::Unknown => "unknown"@,
    }
}

impl Category {
    /// The name of the category.
    pub fn name(self) -> (r: &'static str)
        ensures
            r@ == category_name(self),
    {
        match self {
            Category::Status => "status",
            Category::PositionNoTsNoMsg => "position_nots_nomsg",
            Category::PositionNoTsMsg => "position_nots_msg",
            Category::Telemetry => "telemetry",
            Category::Object => "object",
            Category::OldMice => "old_mice",
            Category::Unknown => "unknown",
        }
    }
}

/// A station address: call, secondary station identifier, and whether a
/// digipeater has already repeated the frame on its behalf.
#[derive(Clone, Debug, PartialEq, Eq)]
pub struct Callsign {
    pub callsign: String,
    pub ssid: u8,
    pub digi: bool,
}

/// A callsign as a mathematical value.
pub struct CallsignView {
    pub call: Seq<char>,
    pub ssid: u8,
    pub digi: bool,
}

impl View for Callsign {
    type V = CallsignView;

    open spec fn view(&self) -> CallsignView {
        CallsignView { call: self.callsign@, ssid: self.ssid, digi: self.digi }
    }
}

/// The payload of a frame with its category. `safe` is set on a field that
/// was parsed from wire bytes and unset on one that a producer put together.
#[derive(Clone, Debug, PartialEq, Eq)]
pub struct InformationField {
    pub data: Vec<u8>,
    pub data_type: Category,
    pub safe: bool,
}

/// An information field as a mathematical value.
pub struct InformationFieldView {
    pub data: Seq<u8>,
    pub data_type: Category,
    pub safe: bool,
}

impl View for InformationField {
    type V = InformationFieldView;

    open spec fn view(&self) -> InformationFieldView {
        InformationFieldView { data: self.data@, data_type: self.data_type, safe: self.safe }
    }
}

/// A frame: who sent it, to whom, through which digipeaters, and what it
/// says. The order of the path is the order of relaying.
#[derive(Clone, Debug, PartialEq, Eq)]
pub struct Frame {
    pub source: Callsign,
    pub destination: Callsign,
    pub path: Vec<Callsign>,
    pub info: InformationField,
}

/// A frame as a mathematical value.
pub struct FrameView {
    pub source: CallsignView,
    pub destination: CallsignView,
    pub path: Seq<CallsignView>,
    pub info: InformationFieldView,
}

/// The views of a list of callsigns, in order.
pub open spec fn callsign_views(path: Seq<Callsign>) -> Seq<CallsignView> {
    Seq::new(path.len(), |i: int| path[i]@)
}

impl View for Frame {
    type V = FrameView;

    open spec fn view(&self) -> FrameView {
        FrameView {
            source: self.source@,
            destination: self.destination@,
            path: callsign_views(self.path@),
            info: self.info@,
        }
    }
}

/// Marker for the APRS-IS service as a whole.
pub struct APRS;

/// Marker for the TCP transport.
pub struct TCP;

/// Marker for the UDP transport.
pub struct UDP;

/// Marker for the HTTP transport.
pub struct HTTP;

/// The callsign with no call, SSID 0, not repeated.
pub open spec fn empty_callsign() -> CallsignView {
    CallsignView { call: Seq::<char>::empty(), ssid: 0, digi: false }
}

/// The information field with no payload, of unknown category, that nothing
/// vouches for.
pub open spec fn empty_information_field() -> InformationFieldView {
    InformationFieldView { data: Seq::<u8>::empty(), data_type: Category::Unknown, safe: false }
}

/// The frame with empty addresses, no path and an empty information field.
pub open spec fn empty_frame() -> FrameView {
    FrameView {
        source: empty_callsign(),
        destination: empty_callsign(),
        path: Seq::<CallsignView>::empty(),
        info: empty_information_field(),
    }
}

/// A well-formed callsign: three to six ASCII letters or digits and an SSID
/// that fits four bits.
pub open spec fn well_formed(c: CallsignView) -> bool {
    &&& 3 <= c.call.len() <= 6
    &&& is_ascii_chars(c.call)
    &&& forall|i: int| 0 <= i < c.call.len() ==> is_alnum(#[trigger] c.call[i] as u8)
    &&& c.ssid <= 15
}

/// Call bytes padded on the right with spaces to six; longer ones stay as
/// they are.
pub open spec fn padded_call(bytes: Seq<u8>) -> Seq<u8> {
    if bytes.len() >= 6 {
        bytes
    } else {
        bytes + Seq::new((6 - bytes.len()) as nat, |i: int| SPACE)
    }
}

/// Every byte shifted left by one bit, the top bit lost.
pub open spec fn shifted_left(bytes: Seq<u8>) -> Seq<u8> {
    Seq::new(bytes.len(), |i: int| bytes[i] << 1u8)
}

/// The seventh octet of an address field.
pub open spec fn ssid_octet(ssid: u8, digi: bool) -> u8 {
    if digi {
        ((ssid << 1u8) | 0x60u8) | 0x80u8
    } else {
        (ssid << 1u8) | 0x60u8
    }
}

/// The AX.25 address field of a callsign: the UTF-8 bytes of the call, padded
/// to six, each shifted left, then the SSID octet.
pub open spec fn encode_callsign(c: CallsignView) -> Seq<u8> {
    shifted_left(padded_call(encode_utf8(c.call))).push(ssid_octet(c.ssid, c.digi))
}

/// The address fields of a digipeater path, one after the other.
pub open spec fn encode_path(path: Seq<CallsignView>) -> Seq<u8>
    decreases path.len(),
{
    if path.len() == 0 {
        Seq::<u8>::empty()
    } else {
        encode_path(path.drop_last()) + encode_callsign(path.last())
    }
}

/// The bytes of a frame: flag, destination, source, path, payload.
pub open spec fn encode_frame(f: FrameView) -> Seq<u8> {
    seq![AX25_FLAG] + encode_callsign(f.destination) + encode_callsign(f.source) + encode_path(
        f.path,
    ) + f.info.data
}

impl Callsign {
    /// An empty callsign with SSID 0.
    pub fn new() -> (r: Callsign)
        ensures
            r@ == empty_callsign(),
    {
        Callsign { callsign: String::new(), ssid: 0, digi: false }
    }

    /// Replaces the call.
    pub fn set_callsign(&mut self, callsign: String)
        ensures
            final(self)@ == (CallsignView { call: callsign@, ..old(self)@ }),
    {
        self.callsign = callsign;
    }

    /// Replaces the SSID.
    pub fn set_ssid(&mut self, ssid: u8)
        ensures
            final(self)@ == (CallsignView { ssid: ssid, ..old(self)@ }),
    {
        self.ssid = ssid;
    }

    /// Marks the callsign as repeated or not.
    pub fn set_digi(&mut self, digi: bool)
        ensures
            final(self)@ == (CallsignView { digi: digi, ..old(self)@ }),
    {
        self.digi = digi;
    }

    /// The AX.25 address field of this callsign.
    pub fn encode_ax25(&self) -> (r: Vec<u8>)
        ensures
            r@ == encode_callsign(self@),
            self.callsign@.len() <= 6 && is_ascii_chars(self.callsign@) ==> r@.len() == 7,
    {
        let mut encoded_callsign: Vec<u8> = Vec::new();
        let mut encoded_ssid: u8 = (self.ssid << 1) | 0x60;
        if self.digi {
            encoded_ssid = encoded_ssid | 0x80;
        }
        let call: &[u8] = self.callsign.as_str().as_bytes();
        let mut padded: Vec<u8> = Vec::new();
        let mut i: usize = 0;
        while i < call.len()
            invariant
                i <= call@.len(),
                padded@ == call@.take(i as int),
            decreases call@.len() - i,
        {
            padded.push(call[i]);
            proof {
                assert(padded@ =~= call@.take(i + 1));
            }
            i += 1;
        }
        proof {
            assert(call@.take(call@.len() as int) =~= call@);
        }
        while padded.len() < 6
            invariant
                call@.len() <= padded@.len(),
                padded@.len() <= 6 || padded@.len() == call@.len(),
                padded@ == call@ + Seq::new((padded@.len() - call@.len()) as nat, |i: int| SPACE),
            decreases 6 - padded@.len(),
        {
            padded.push(SPACE);
            proof {
                assert(padded@ =~= call@ + Seq::new(
                    (padded@.len() - call@.len()) as nat,
                    |i: int| SPACE,
                ));
            }
        }
        proof {
            assert(padded@ =~= padded_call(call@));
        }
        let mut j: usize = 0;
        while j < padded.len()
            invariant
                j <= padded@.len(),
                encoded_callsign@ == shifted_left(padded@.take(j as int)),
            decreases padded@.len() - j,
        {
            encoded_callsign.push(padded[j] << 1);
            proof {
                assert(encoded_callsign@ =~= shifted_left(padded@.take(j + 1)));
            }
            j += 1;
        }
        proof {
            assert(padded@.take(padded@.len() as int) =~= padded@);
            if is_ascii_chars(self.callsign@) {
                vstd::utf8::is_ascii_chars_encode_utf8(self.callsign@);
            }
        }
        encoded_callsign.push(encoded_ssid);
        encoded_callsign
    }
}

impl InformationField {
    /// An empty field of unknown category that nothing vouches for.
    pub fn new() -> (r: InformationField)
        ensures
            r@ == empty_information_field(),
    {
        InformationField { data: Vec::new(), data_type: Category::Unknown, safe: false }
    }

    /// Replaces the payload with a copy of `raw_data`.
    pub fn set_data(&mut self, raw_data: &[u8])
        ensures
            final(self)@ == (InformationFieldView { data: raw_data@, ..old(self)@ }),
    {
        self.data = crate::functions::copy_bytes(raw_data);
    }

    /// Declares the category.
    pub fn set_data_type(&mut self, data_type: Category)
        ensures
            final(self)@ == (InformationFieldView { data_type: data_type, ..old(self)@ }),
    {
        self.data_type = data_type;
    }

    /// Says whether the field came off the wire.
    pub fn set_safe(&mut self, safe: bool)
        ensures
            final(self)@ == (InformationFieldView { safe: safe, ..old(self)@ }),
    {
        self.safe = safe;
    }
}

/// The texts of a list of byte vectors that are all accepted, decoded.
pub open spec fn decode_texts(texts: Seq<Vec<u8>>) -> Seq<CallsignView> {
    Seq::new(texts.len(), |i: int| decode_text_spec(texts[i]@)->Ok_0)
}

/// Whether every text of a list is an accepted callsign text.
pub open spec fn all_texts_ok(texts: Seq<Vec<u8>>) -> bool {
    forall|i: int| 0 <= i < texts.len() ==> text_callsign_ok(#[trigger] texts[i]@)
}

impl Frame {
    /// A frame with empty addresses, an empty path and an empty field.
    pub fn new() -> (r: Frame)
        ensures
            r@ == empty_frame(),
    {
        let frame = Frame {
            source: Callsign::new(),
            destination: Callsign::new(),
            path: Vec::new(),
            info: InformationField::new(),
        };
        assert(frame@.path =~= Seq::<CallsignView>::empty());
        assert(frame@ == empty_frame());
        frame
    }

    /// Sets the source from its text form; a rejected text changes nothing.
    pub fn set_source(&mut self, source: &[u8]) -> (r: Result<(), AprsError>)
        ensures
            match decode_text_spec(source@) {
                Ok(c) => r is Ok && final(self)@ == (FrameView { source: c, ..old(self)@ }),
                Err(e) => r == Err::<(), AprsError>(e) && *final(self) == *old(self),
            },
    {
        match parse_callsign(source) {
            Ok(c) => {
                self.source = c;
                Ok(())
            },
            Err(e) => Err(e),
        }
    }

    /// Sets the destination from its text form; a rejected text changes
    /// nothing.
    pub fn set_destination(&mut self, dest: &[u8]) -> (r: Result<(), AprsError>)
        ensures
            match decode_text_spec(dest@) {
                Ok(c) => r is Ok && final(self)@ == (FrameView { destination: c, ..old(self)@ }),
                Err(e) => r == Err::<(), AprsError>(e) && *final(self) == *old(self),
            },
    {
        match parse_callsign(dest) {
            Ok(c) => {
                self.destination = c;
                Ok(())
            },
            Err(e) => Err(e),
        }
    }

    /// Appends the callsigns that `path` holds in text form, in order. Where
    /// one of them is rejected the frame stays as it was.
    pub fn set_path(&mut self, path: Vec<Vec<u8>>) -> (r: Result<(), AprsError>)
        ensures
            all_texts_ok(path@) ==> r is Ok && final(self)@ == (FrameView {
                path: old(self)@.path + decode_texts(path@),
                ..old(self)@
            }),
            !all_texts_ok(path@) ==> r == Err::<(), AprsError>(AprsError::InvalidCallsign)
                && *final(self) == *old(self),
    {
        let mut parsed: Vec<Callsign> = Vec::new();
        let mut i: usize = 0;
        while i < path.len()
            invariant
                i <= path@.len(),
                parsed@.len() == i,
                forall|k: int| 0 <= k < i ==> text_callsign_ok(#[trigger] path@[k]@),
                forall|k: int|
                    0 <= k < i ==> decode_text_spec(path@[k]@) == Ok::<CallsignView, AprsError>(
                        (#[trigger] parsed@[k])@,
                    ),
            decreases path@.len() - i,
        {
            match parse_callsign(path[i].as_slice()) {
                Ok(c) => {
                    parsed.push(c);
                },
                Err(e) => {
                    assert(!text_callsign_ok(path@[i as int]@));
                    return Err(AprsError::InvalidCallsign);
                },
            }
            i += 1;
        }
        let ghost before = self.path@;
        self.path.append(&mut parsed);
        proof {
            assert(callsign_views(self.path@) =~= callsign_views(before) + decode_texts(path@));
        }
        Ok(())
    }

    /// Sets the information field from wire bytes; bytes that cannot be
    /// tagged change nothing.
    pub fn set_info(&mut self, info: &[u8]) -> (r: Result<(), AprsError>)
        ensures
            match tag_spec(info@) {
                Ok(f) => r is Ok && final(self)@ == (FrameView { info: f, ..old(self)@ }),
                Err(e) => r == Err::<(), AprsError>(e) && *final(self) == *old(self),
            },
    {
        match parse_info_field(info) {
            Ok(f) => {
                self.info = f;
                Ok(())
            },
            Err(e) => Err(e),
        }
    }

    /// The frame as AX.25 bytes: one flag, the destination, the source, the
    /// path in order, and the payload unchanged.
    pub fn encode_ax25(&self) -> (r: Vec<u8>)
        ensures
            r@ == encode_frame(self@),
    {
        let mut encoded_frame: Vec<u8> = Vec::new();
        encoded_frame.push(AX25_FLAG);
        let mut dest = self.destination.encode_ax25();
        encoded_frame.append(&mut dest);
        let mut src = self.source.encode_ax25();
        encoded_frame.append(&mut src);
        let ghost head = encoded_frame@;
        let ghost views = callsign_views(self.path@);
        let mut k: usize = 0;
        proof {
            assert(views.take(0) =~= Seq::<CallsignView>::empty());
        }
        while k < self.path.len()
            invariant
                k <= self.path@.len(),
                views == callsign_views(self.path@),
                encoded_frame@ == head + encode_path(views.take(k as int)),
            decreases self.path@.len() - k,
        {
            let mut hop = self.path[k].encode_ax25();
            encoded_frame.append(&mut hop);
            proof {
                assert(views.take(k + 1).drop_last() =~= views.take(k as int));
                assert(views.take(k + 1).last() == self.path@[k as int]@);
                assert(encoded_frame@ =~= head + encode_path(views.take(k + 1)));
            }
            k += 1;
        }
        proof {
            assert(views.take(self.path@.len() as int) =~= views);
        }
        let mut payload = crate::functions::copy_bytes(self.info.data.as_slice());
        encoded_frame.append(&mut payload);
        proof {
            assert(encoded_frame@ =~= encode_frame(self@));
        }
        encoded_frame
    }
}

} // verus!
