//! APRS position strings.
//!
//! A latitude is written `DDMM.MMH`, a longitude `DDDMM.MMH`. Precision can
//! be taken away from the right by blanking digits, so that a station gives
//! away its town but not its street.

use vstd::prelude::*;
use vstd::string::StringSliceAdditionalSpecFns;
use vstd::utf8::{encode_scalar, encode_utf8};
use crate::text::{chars_of, string_from_chars};

verus! {

/// How many bytes before the hemisphere letter are looked at: the
/// ambiguity itself up to two, and one more beyond that, to step over the
/// decimal point.
pub open spec fn masked_width(ambiguity: int) -> int {
    if ambiguity <= 2 {
        ambiguity
    } else {
        ambiguity + 1
    }
}

/// Where character `i` of a string starts, counted in bytes of its UTF-8
/// form. In an ASCII string this is `i`.
pub open spec fn byte_offset(pos: Seq<char>, i: int) -> int {
    encode_utf8(pos.take(i)).len() as int
}

/// A position string with its last digits blanked: every character that
/// starts in the window of `masked_width` bytes before the last byte becomes
/// a space, but for the decimal point. The hemisphere letter at the end
/// stays.
pub open spec fn ambiguate_spec(pos: Seq<char>, ambiguity: int) -> Seq<char> {
    if ambiguity == 0 {
        pos
    } else {
        let total = encode_utf8(pos).len();
        Seq::new(
            pos.len(),
            |i: int|
                if total - 1 - masked_width(ambiguity) <= byte_offset(pos, i) < total - 1 && pos[i]
                    != '.' {
                    ' '
                } else {
                    pos[i]
                },
        )
    }
}

/// The UTF-8 form of a string with one more character is the UTF-8 form of
/// the string followed by that of the character.
pub proof fn lemma_encode_utf8_push(chars: Seq<char>, c: char)
    ensures
        encode_utf8(chars.push(c)) == encode_utf8(chars) + encode_scalar(c as u32),
    decreases chars.len(),
{
    if chars.len() == 0 {
        assert(chars.push(c).drop_first() =~= Seq::<char>::empty());
        assert(encode_utf8(chars.push(c).drop_first()) =~= Seq::<u8>::empty());
        assert(encode_utf8(chars) =~= Seq::<u8>::empty());
        assert(encode_utf8(chars.push(c)) =~= encode_utf8(chars) + encode_scalar(c as u32));
    } else {
        assert(chars.push(c).drop_first() =~= chars.drop_first().push(c));
        lemma_encode_utf8_push(chars.drop_first(), c);
        assert(encode_utf8(chars.push(c)) =~= encode_utf8(chars) + encode_scalar(c as u32));
    }
}

/// How many bytes a character takes in UTF-8.
pub fn utf8_width(c: char) -> (r: usize)
    ensures
        r == encode_scalar(c as u32).len(),
        1 <= r <= 4,
{
    let v: u32 = c as u32;
    proof {
        vstd::utf8::char_is_scalar(c);
    }
    if v < 0x80 {
        1
    } else if v < 0x800 {
        2
    } else if v < 0x10000 {
        3
    } else {
        4
    }
}

/// Removes precision from a position string. The string must be long
/// enough to hold the window and the hemisphere letter.
pub fn ambiguate(pos: &str, ambiguity: usize) -> (r: String)
    requires
        ambiguity > 0 ==> masked_width(ambiguity as int) + 1 <= pos.spec_bytes().len(),
    ensures
        r@ == ambiguate_spec(pos@, ambiguity as int),
{
    if ambiguity == 0 {
        return pos.to_owned();
    }
    let total: usize = pos.as_bytes().len();
    let amb: usize = if ambiguity <= 2 {
        ambiguity
    } else {
        ambiguity + 1
    };
    let start: usize = total - (amb + 1);
    let end: usize = total - 1;
    let chars = chars_of(pos);
    let count: usize = chars.len();
    let mut pos_ambig: Vec<char> = Vec::new();
    let mut ind: usize = 0;
    let mut n: usize = 0;
    proof {
        assert(pos@.take(0) =~= Seq::<char>::empty());
        assert(pos@.take(pos@.len() as int) =~= pos@);
    }
    while n < count
        invariant
            n <= count,
            count == pos@.len(),
            chars@ == pos@,
            total == encode_utf8(pos@).len(),
            ind == byte_offset(pos@, n as int),
            ind <= total,
            n == count ==> ind == total,
            amb == masked_width(ambiguity as int),
            ambiguity > 0,
            start == total - 1 - amb,
            end == total - 1,
            pos_ambig@.len() == n,
            forall|i: int|
                0 <= i < n ==> #[trigger] pos_ambig@[i] == ambiguate_spec(
                    pos@,
                    ambiguity as int,
                )[i],
        decreases count - n,
    {
        let chr: char = chars[n];
        let width: usize = utf8_width(chr);
        proof {
            assert(pos@.take(n + 1) =~= pos@.take(n as int).push(chr));
            lemma_encode_utf8_push(pos@.take(n as int), chr);
            lemma_offset_within(pos@, n + 1);
        }
        if ind >= start && ind < end && chr != '.' {
            pos_ambig.push(' ');
        } else {
            pos_ambig.push(chr);
        }
        ind += width;
        n += 1;
    }
    proof {
        assert(pos_ambig@ =~= ambiguate_spec(pos@, ambiguity as int));
    }
    string_from_chars(pos_ambig)
}

/// A character never starts past the end of the string.
pub proof fn lemma_offset_within(pos: Seq<char>, i: int)
    requires
        0 <= i <= pos.len(),
    ensures
        byte_offset(pos, i) <= encode_utf8(pos).len(),
        i == pos.len() ==> byte_offset(pos, i) == encode_utf8(pos).len(),
    decreases pos.len() - i,
{
    if i < pos.len() {
        assert(pos.take(i + 1) =~= pos.take(i).push(pos[i]));
        lemma_encode_utf8_push(pos.take(i), pos[i]);
        lemma_offset_within(pos, i + 1);
    } else {
        assert(pos.take(i) =~= pos);
    }
}

/// The leading octet of a position report without timestamp, with
/// messaging.
pub const POSITION_MARK: u8 = 0x3D;

/// The payload of a position report: the mark `=`, the latitude, the symbol
/// table, the longitude, the symbol, and the comment.
pub open spec fn position_info_spec(
    lat: Seq<u8>,
    table: Seq<u8>,
    lng: Seq<u8>,
    symbol: u8,
    comment: Seq<u8>,
) -> Seq<u8> {
    seq![POSITION_MARK] + lat + table + lng + seq![symbol] + comment
}

/// Puts the payload of a position report together from a latitude and a
/// longitude that are already written out.
pub fn position_info_field(
    lat: &str,
    table: &[u8],
    lng: &str,
    symbol: u8,
    comment: &[u8],
) -> (r: Vec<u8>)
    ensures
        r@ == position_info_spec(lat.spec_bytes(), table@, lng.spec_bytes(), symbol, comment@),
{
    let mut frame: Vec<u8> = Vec::new();
    frame.push(POSITION_MARK);
    frame.extend_from_slice(lat.as_bytes());
    frame.extend_from_slice(table);
    frame.extend_from_slice(lng.as_bytes());
    frame.push(symbol);
    frame.extend_from_slice(comment);
    proof {
        assert(frame@ =~= position_info_spec(
            lat.spec_bytes(),
            table@,
            lng.spec_bytes(),
            symbol,
            comment@,
        ));
    }
    frame
}

} // verus!
