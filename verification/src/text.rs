//! Byte-level helpers shared by the text and AX.25 decoders.

use vstd::prelude::*;
use vstd::std_specs::iter::IteratorSpec;

verus! {

/// `*`, which marks a callsign as already repeated.
pub const STAR: u8 = 0x2A;

/// `-`, which separates call and SSID.
pub const DASH: u8 = 0x2D;

/// `>`, which ends the source of a text frame.
pub const GREATER: u8 = 0x3E;

/// `:`, which ends the address list of a text frame.
pub const COLON: u8 = 0x3A;

/// `,`, which separates the addresses of a text frame.
pub const COMMA: u8 = 0x2C;

/// The space that pads a call to six characters.
pub const SPACE: u8 = 0x20;

/// ASCII letter or digit.
pub open spec fn is_alnum(b: u8) -> bool {
    (0x30 <= b <= 0x39) || (0x41 <= b <= 0x5A) || (0x61 <= b <= 0x7A)
}

/// ASCII decimal digit.
pub open spec fn is_digit(b: u8) -> bool {
    0x30 <= b <= 0x39
}

/// ASCII white space: space, tab, line feed, vertical tab, form feed,
/// carriage return.
pub open spec fn is_space(b: u8) -> bool {
    b == 0x20 || (0x09 <= b <= 0x0D)
}

/// A byte that is trimmed from the end of a callsign text: `*` or white
/// space.
pub open spec fn is_trim_byte(b: u8) -> bool {
    b == STAR || is_space(b)
}

/// Whether every byte of `s` is an ASCII letter or digit.
pub open spec fn all_alnum(s: Seq<u8>) -> bool {
    forall|i: int| 0 <= i < s.len() ==> is_alnum(#[trigger] s[i])
}

/// The characters that a byte sequence stands for, one per byte.
pub open spec fn chars_of_bytes(s: Seq<u8>) -> Seq<char> {
    Seq::new(s.len(), |i: int| s[i] as char)
}

/// The first index at or after `from` that holds `b`; where there is none,
/// the length of `s` (or `from`, if that is larger).
pub open spec fn index_from(s: Seq<u8>, b: u8, from: int) -> int
    decreases s.len() - from,
{
    if from >= s.len() || s[from] == b {
        from
    } else {
        index_from(s, b, from + 1)
    }
}

/// `s` without its leading white space.
pub open spec fn trim_front(s: Seq<u8>) -> Seq<u8>
    decreases s.len(),
{
    if s.len() > 0 && is_space(s[0]) {
        trim_front(s.drop_first())
    } else {
        s
    }
}

/// `s` without its trailing white space and `*`.
pub open spec fn trim_back(s: Seq<u8>) -> Seq<u8>
    decreases s.len(),
{
    if s.len() > 0 && is_trim_byte(s.last()) {
        trim_back(s.drop_last())
    } else {
        s
    }
}

/// `s` without the white space at its start and without the white space
/// and `*` at its end.
pub open spec fn trimmed(s: Seq<u8>) -> Seq<u8> {
    trim_back(trim_front(s))
}

/// A character with the Unicode property White_Space.
pub open spec fn is_white_space(c: char) -> bool {
    let v = c as u32;
    (0x09 <= v <= 0x0D) || v == 0x20 || v == 0x85 || v == 0xA0 || v == 0x1680 || (0x2000 <= v
        <= 0x200A) || v == 0x2028 || v == 0x2029 || v == 0x202F || v == 0x205F || v == 0x3000
}

/// Tells whether a byte is an ASCII letter or digit.
pub fn byte_is_alnum(b: u8) -> (r: bool)
    ensures
        r == is_alnum(b),
{
    (0x30 <= b && b <= 0x39) || (0x41 <= b && b <= 0x5A) || (0x61 <= b && b <= 0x7A)
}

/// Tells whether a byte is an ASCII decimal digit.
pub fn byte_is_digit(b: u8) -> (r: bool)
    ensures
        r == is_digit(b),
{
    0x30 <= b && b <= 0x39
}

/// Tells whether a byte is ASCII white space.
pub fn byte_is_space(b: u8) -> (r: bool)
    ensures
        r == is_space(b),
{
    b == 0x20 || (0x09 <= b && b <= 0x0D)
}

/// Tells whether a byte is trimmed from the end of a callsign text.
pub fn byte_is_trimmed(b: u8) -> (r: bool)
    ensures
        r == is_trim_byte(b),
{
    b == STAR || byte_is_space(b)
}

/// Tells whether a character is white space.
pub fn char_is_white_space(c: char) -> (r: bool)
    ensures
        r == is_white_space(c),
{
    let v: u32 = c as u32;
    (0x09 <= v && v <= 0x0D) || v == 0x20 || v == 0x85 || v == 0xA0 || v == 0x1680 || (0x2000 <= v
        && v <= 0x200A) || v == 0x2028 || v == 0x2029 || v == 0x202F || v == 0x205F || v == 0x3000
}

/// Finds the first `b` at or after `from`.
pub fn find_byte(s: &[u8], b: u8, from: usize) -> (r: usize)
    requires
        from <= s@.len(),
    ensures
        r == index_from(s@, b, from as int),
        from <= r <= s@.len(),
        r < s@.len() ==> s@[r as int] == b,
        forall|k: int| from <= k < r ==> s@[k] != b,
{
    let mut i: usize = from;
    while i < s.len() && s[i] != b
        invariant
            from <= i <= s@.len(),
            index_from(s@, b, from as int) == index_from(s@, b, i as int),
            forall|k: int| from <= k < i ==> s@[k] != b,
        decreases s@.len() - i,
    {
        i += 1;
    }
    i
}

/// The bounds of what stays of `s` when it is trimmed.
pub fn trim_bounds(s: &[u8]) -> (r: (usize, usize))
    ensures
        r.0 <= r.1 <= s@.len(),
        s@.subrange(r.0 as int, r.1 as int) == trimmed(s@),
{
    let mut start: usize = 0;
    proof {
        assert(s@.subrange(0, s@.len() as int) =~= s@);
    }
    while start < s.len() && byte_is_space(s[start])
        invariant
            start <= s@.len(),
            trim_front(s@) == trim_front(s@.subrange(start as int, s@.len() as int)),
        decreases s@.len() - start,
    {
        proof {
            assert(s@.subrange(start as int, s@.len() as int).drop_first() =~= s@.subrange(
                start + 1,
                s@.len() as int,
            ));
        }
        start += 1;
    }
    let mut end: usize = s.len();
    while end > start && byte_is_trimmed(s[end - 1])
        invariant
            start <= end <= s@.len(),
            trimmed(s@) == trim_back(s@.subrange(start as int, end as int)),
        decreases end,
    {
        proof {
            assert(s@.subrange(start as int, end as int).drop_last() =~= s@.subrange(
                start as int,
                end - 1,
            ));
        }
        end -= 1;
    }
    (start, end)
}

/// The byte of an ASCII character; `None` for any other character.
pub fn ascii_byte(c: char) -> (r: Option<u8>)
    ensures
        r is Some <==> '\0' <= c <= '\u{7f}',
        r is Some ==> r->0 == c as u8,
{
    if c <= '\u{7f}' {
        Some(c as u8)
    } else {
        None
    }
}

/// The characters of a string, in order.
pub fn chars_of(s: &str) -> (v: Vec<char>)
    ensures
        v@ == s@,
{
    broadcast use vstd::string::group_string_axioms;

    let mut it = s.chars();
    let mut v: Vec<char> = Vec::new();
    loop
        invariant
            it.obeys_prophetic_iter_laws(),
            it.decrease() is Some,
            v@ + it.remaining() == s@,
        ensures
            v@ == s@,
        decreases it.decrease()->0,
    {
        match it.next() {
            Some(c) => {
                v.push(c);
                assert(v@ + it.remaining() =~= s@);
            },
            None => {
                assert(v@ =~= s@);
                break ;
            },
        }
    }
    v
}

/// `String::from_iter` over characters: the string made of the characters
/// of `chars`, in order.
#[verifier::external_body]
pub(crate) fn string_from_chars(chars: Vec<char>) -> (s: String)
    ensures
        s@ == chars@,
{
    String::from_iter(chars)
}

/// The string whose characters are the bytes of `s`, one character per byte.
pub fn string_of_bytes(s: &[u8]) -> (r: String)
    ensures
        r@ == chars_of_bytes(s@),
{
    let mut chars: Vec<char> = Vec::new();
    let mut i: usize = 0;
    while i < s.len()
        invariant
            i <= s@.len(),
            chars@ == chars_of_bytes(s@.take(i as int)),
        decreases s@.len() - i,
    {
        chars.push(s[i] as char);
        proof {
            assert(chars@ =~= chars_of_bytes(s@.take(i + 1)));
        }
        i += 1;
    }
    proof {
        assert(s@.take(s@.len() as int) =~= s@);
    }
    string_from_chars(chars)
}

} // verus!
