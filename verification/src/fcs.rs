//! Frame check sequence: a bit-serial CRC-16/X.25 register.

use vstd::prelude::*;
use bit_vec::BitVec;
use byteorder::{ByteOrder, LittleEndian};
use crate::constants::{FCS_POLYNOMIAL, FCS_SEED};
use crate::error::AprsError;

verus! {

/// The bit vector of the bit-vec crate. Nothing inside it is visible here;
/// `bitvec_bits` names what it holds.
#[verifier::external_type_specification]
#[verifier::external_body]
#[verifier::reject_recursive_types(B)]
pub struct ExBitVec<B>(BitVec<B>);

/// The bits that a `BitVec` holds, first to last.
pub uninterp spec fn bitvec_bits(v: BitVec) -> Seq<bool>;

/// Bit `k` of an octet, counted from the most significant bit.
pub open spec fn bit_of_byte(b: u8, k: int) -> bool {
    (b >> ((7 - k) as u8)) & 1 == 1
}

/// The bits of a byte sequence, each octet's most significant bit first.
pub open spec fn bits_of_bytes(bytes: Seq<u8>) -> Seq<bool> {
    Seq::new(8 * bytes.len(), |i: int| bit_of_byte(bytes[i / 8], i % 8))
}

/// Bit `i` of a bit sequence, reading `false` past its end.
pub open spec fn bit_or_false(bits: Seq<bool>, i: int) -> bool {
    0 <= i < bits.len() && bits[i]
}

/// The octet made of eight bits starting at bit `8 * j`, first bit highest.
pub open spec fn packed_byte(bits: Seq<bool>, j: int) -> u8 {
    (if bit_or_false(bits, 8 * j) { 0x80u8 } else { 0u8 })
    | (if bit_or_false(bits, 8 * j + 1) { 0x40u8 } else { 0u8 })
    | (if bit_or_false(bits, 8 * j + 2) { 0x20u8 } else { 0u8 })
    | (if bit_or_false(bits, 8 * j + 3) { 0x10u8 } else { 0u8 })
    | (if bit_or_false(bits, 8 * j + 4) { 0x08u8 } else { 0u8 })
    | (if bit_or_false(bits, 8 * j + 5) { 0x04u8 } else { 0u8 })
    | (if bit_or_false(bits, 8 * j + 6) { 0x02u8 } else { 0u8 })
    | (if bit_or_false(bits, 8 * j + 7) { 0x01u8 } else { 0u8 })
}

/// A bit sequence packed into octets, first bit highest, the last octet
/// filled up with `false`.
pub open spec fn bytes_of_bits(bits: Seq<bool>) -> Seq<u8> {
    Seq::new(((bits.len() + 7) / 8) as nat, |j: int| packed_byte(bits, j))
}

/// `BitVec::new`: an empty bit vector.
#[verifier::external_body]
fn bitvec_new() -> (v: BitVec)
    ensures
        bitvec_bits(v) == Seq::<bool>::empty(),
{
    BitVec::new()
}

/// `BitVec::from_bytes`: each octet becomes eight bits, its most significant
/// bit first. The call fails only where eight times the length overflows.
#[verifier::external_body]
fn bitvec_from_bytes(bytes: &[u8]) -> (v: BitVec)
    requires
        8 * bytes@.len() <= usize::MAX,
    ensures
        bitvec_bits(v) == bits_of_bytes(bytes@),
{
    BitVec::from_bytes(bytes)
}

/// `Extend::extend` of `BitVec`: pushes every bit of `bits`, in order, onto
/// the end. The call fails only where the new length overflows.
#[verifier::external_body]
fn bitvec_extend(v: &mut BitVec, bits: Vec<bool>)
    requires
        bitvec_bits(*old(v)).len() + bits@.len() <= usize::MAX,
    ensures
        bitvec_bits(*final(v)) == bitvec_bits(*old(v)) + bits@,
{
    v.extend(bits.into_iter())
}

/// `BitVec::to_bytes`: the first bit becomes the high-order bit of the first
/// octet; where the length is no multiple of eight the last octet is filled
/// up with `false`.
#[verifier::external_body]
fn bitvec_to_bytes(v: &BitVec) -> (bytes: Vec<u8>)
    ensures
        bytes@ == bytes_of_bits(bitvec_bits(*v)),
{
    v.to_bytes()
}

/// `IntoIterator::into_iter` of `BitVec`: hands the bits out first to last.
#[verifier::external_body]
fn bitvec_into_bits(v: BitVec) -> (bits: Vec<bool>)
    ensures
        bits@ == bitvec_bits(v),
{
    v.into_iter().collect()
}

/// `LittleEndian::write_u16` of byteorder: stores `n` in the first two octets
/// of `buf`, low octet first, and leaves the rest alone. It panics on a
/// buffer shorter than two octets.
#[verifier::external_body]
fn write_u16_le(buf: &mut Vec<u8>, n: u16)
    requires
        old(buf)@.len() >= 2,
    ensures
        final(buf)@ == old(buf)@.update(0, (n & 0xff) as u8).update(1, (n >> 8) as u8),
{
    LittleEndian::write_u16(buf.as_mut_slice(), n)
}

/// One step of the register: shift right by one; where the bit shifted out
/// differs from the input bit, fold the feedback constant in.
pub open spec fn update_bit_spec(state: u16, bit: bool) -> u16 {
    if (state & 1 == 1) != bit {
        (state >> 1) ^ FCS_POLYNOMIAL
    } else {
        state >> 1
    }
}

/// The register after `bits` went through it, one by one, from `state`.
pub open spec fn register_after(state: u16, bits: Seq<bool>) -> u16
    decreases bits.len(),
{
    if bits.len() == 0 {
        state
    } else {
        update_bit_spec(register_after(state, bits.drop_last()), bits.last())
    }
}

/// The two checksum octets of a register: its one's complement, low octet
/// first.
pub open spec fn digest_spec(state: u16) -> Seq<u8> {
    seq![((!state) & 0xff) as u8, ((!state) >> 8) as u8]
}

/// Running state of one checksum computation.
pub struct FCS {
    fcs: u16,
}

impl View for FCS {
    type V = u16;

    closed spec fn view(&self) -> u16 {
        self.fcs
    }
}

impl FCS {
    /// A register holding the seed.
    pub fn new() -> (r: FCS)
        ensures
            r@ == FCS_SEED,
    {
        FCS { fcs: FCS_SEED }
    }

    /// Feeds one bit.
    pub fn update_bit(&mut self, bit: bool)
        ensures
            final(self)@ == update_bit_spec(old(self)@, bit),
    {
        let check: bool = self.fcs & 0x1 == 1;
        self.fcs = self.fcs >> 1;
        if check != bit {
            self.fcs = self.fcs ^ FCS_POLYNOMIAL;
        }
    }

    /// Feeds every octet of `bytes`, each most significant bit first.
    pub fn update_bytes(&mut self, bytes: &[u8])
        ensures
            final(self)@ == register_after(old(self)@, bits_of_bytes(bytes@)),
    {
        let ghost start = self@;
        let mut j: usize = 0;
        while j < bytes.len()
            invariant
                j <= bytes.len(),
                self@ == register_after(start, bits_of_bytes(bytes@.take(j as int))),
            decreases bytes.len() - j,
        {
            let byte: u8 = bytes[j];
            let ghost done = bits_of_bytes(bytes@.take(j as int));
            let mut k: u8 = 0;
            while k < 8
                invariant
                    k <= 8,
                    self@ == register_after(
                        start,
                        done + Seq::new(k as nat, |m: int| bit_of_byte(byte, m)),
                    ),
                decreases 8 - k,
            {
                let bit: bool = ((byte >> (7 - k)) & 0x01_u8) == 1_u8;
                let ghost before = done + Seq::new(k as nat, |m: int| bit_of_byte(byte, m));
                let ghost after = done + Seq::new((k + 1) as nat, |m: int| bit_of_byte(byte, m));
                self.update_bit(bit);
                proof {
                    assert(after.drop_last() =~= before);
                    assert(after.last() == bit);
                }
                k += 1;
            }
            proof {
                assert(bits_of_bytes(bytes@.take(j + 1)) =~= done + Seq::new(
                    8,
                    |m: int| bit_of_byte(byte, m),
                ));
            }
            j += 1;
        }
        proof {
            assert(bytes@.take(bytes@.len() as int) =~= bytes@);
        }
    }

    /// The checksum octets of the bits fed so far.
    pub fn digest(&self) -> (r: Vec<u8>)
        ensures
            r@ == digest_spec(self@),
    {
        let mut ret: Vec<u8> = vec![0u8, 0u8];
        write_u16_le(&mut ret, !self.fcs);
        assert(ret@ =~= digest_spec(self@));
        ret
    }
}

/// An octet with its bits in the opposite order.
pub open spec fn reverse_byte(b: u8) -> u8 {
    ((b & 0x01) << 7) | ((b & 0x02) << 5) | ((b & 0x04) << 3) | ((b & 0x08) << 1)
    | ((b & 0x10) >> 1) | ((b & 0x20) >> 3) | ((b & 0x40) >> 5) | ((b & 0x80) >> 7)
}

/// The low `n` bits of an octet.
pub open spec fn low_bits(b: u8, n: u8) -> u8 {
    if n >= 8 {
        b
    } else {
        b & (((1u8 << n) - 1) as u8)
    }
}

/// Reverses the order of the bits of an octet.
pub fn reverse_bits(bits: u8) -> (r: u8)
    ensures
        r == reverse_byte(bits),
{
    let mut r: u8 = bits;
    let mut s: u8 = 7;
    let mut i: u8 = 1;
    proof {
        assert((bits << 7u8) == reverse_byte(low_bits(bits, 1))) by (bit_vector);
    }
    while i < 8
        invariant
            1 <= i <= 8,
            s <= 7,
            (bits >> ((i - 1) as u8)) != 0 ==> s == 8 - i,
            (r << s) == reverse_byte(low_bits(bits, i)),
        decreases 8 - i,
    {
        let v: u8 = bits >> i;
        let ghost r0 = r;
        let ghost s0 = s;
        if v != 0 {
            proof {
                assert((bits >> i) != 0 && 1 <= i < 8 ==> (bits >> ((i - 1) as u8)) != 0)
                    by (bit_vector);
            }
            r = r << 1;
            r = r | (v & 1);
            s = s - 1;
            proof {
                let i1: u8 = (i + 1) as u8;
                assert(1 <= i < 8 && s0 == 8 - i && i1 == i + 1 && s == s0 - 1 && r == ((r0 << 1u8)
                    | ((bits >> i) & 1)) && (r0 << s0) == reverse_byte(low_bits(bits, i)) ==> (r
                    << s) == reverse_byte(low_bits(bits, i1))) by (bit_vector);
            }
        } else {
            proof {
                let i1: u8 = (i + 1) as u8;
                assert(1 <= i < 8 && i1 == i + 1 && (bits >> i) == 0 ==> low_bits(bits, i1)
                    == low_bits(bits, i) && (bits >> ((i1 - 1) as u8)) == 0) by (bit_vector);
            }
        }
        i += 1;
    }
    r << s
}

/// The two checksum octets as they go on the wire: each octet of the digest
/// with its bits reversed.
pub open spec fn checksum_bytes(state: u16) -> Seq<u8> {
    seq![reverse_byte(digest_spec(state)[0]), reverse_byte(digest_spec(state)[1])]
}

/// The sixteen checksum bits that follow the data: the wire checksum, each
/// octet's most significant bit first.
#[verifier::opaque]
pub open spec fn checksum_bits(state: u16) -> Seq<bool> {
    bits_of_bytes(checksum_bytes(state))
}

/// A bit sequence with its frame check sequence appended.
pub open spec fn fcs_spec(bits: Seq<bool>) -> Seq<bool> {
    bits + checksum_bits(register_after(FCS_SEED, bits))
}

/// Where the checksum starts: sixteen bits before the end, or at the start of
/// a shorter sequence.
pub open spec fn fcs_split(bits: Seq<bool>) -> int {
    if bits.len() > 16 {
        bits.len() - 16
    } else {
        0
    }
}

/// Whether the trailing bits of `bits`, packed into octets, are the checksum
/// of the bits before them.
pub open spec fn fcs_valid(bits: Seq<bool>) -> bool {
    bytes_of_bits(bits.subrange(fcs_split(bits), bits.len() as int)) == checksum_bytes(
        register_after(FCS_SEED, bits.subrange(0, fcs_split(bits))),
    )
}

/// The checksum octets of a register in wire order.
fn wire_checksum(fcs: &FCS) -> (r: Vec<u8>)
    ensures
        r@ == checksum_bytes(fcs@),
{
    let digest = fcs.digest();
    let mut out: Vec<u8> = Vec::new();
    let mut i: usize = 0;
    while i < digest.len()
        invariant
            digest@ == digest_spec(fcs@),
            i <= digest.len(),
            out@.len() == i,
            forall|k: int| 0 <= k < i ==> out@[k] == reverse_byte(#[trigger] digest@[k]),
        decreases digest.len() - i,
    {
        out.push(reverse_bits(digest[i]));
        i += 1;
    }
    assert(out@ =~= checksum_bytes(fcs@));
    out
}

/// Appends the frame check sequence of `bits` to them.
pub fn fcs(bits: Vec<bool>) -> (r: Vec<bool>)
    ensures
        r@ == fcs_spec(bits@),
{
    let mut fcs = FCS::new();
    let mut i: usize = 0;
    while i < bits.len()
        invariant
            i <= bits.len(),
            fcs@ == register_after(FCS_SEED, bits@.take(i as int)),
        decreases bits.len() - i,
    {
        fcs.update_bit(bits[i]);
        proof {
            assert(bits@.take(i + 1).drop_last() =~= bits@.take(i as int));
        }
        i += 1;
    }
    proof {
        assert(bits@.take(bits@.len() as int) =~= bits@);
    }
    let mut fcs_sum: Vec<bool> = bits;
    let wire = wire_checksum(&fcs);
    proof {
        reveal(checksum_bits);
    }
    let mut tail: Vec<bool> = bitvec_into_bits(bitvec_from_bytes(wire.as_slice()));
    fcs_sum.append(&mut tail);
    fcs_sum
}

/// Whether two byte vectors hold the same octets.
fn same_bytes(a: &Vec<u8>, b: &Vec<u8>) -> (r: bool)
    ensures
        r == (a@ == b@),
{
    if a.len() != b.len() {
        return false;
    }
    let mut i: usize = 0;
    while i < a.len()
        invariant
            a@.len() == b@.len(),
            i <= a.len(),
            forall|k: int| 0 <= k < i ==> a@[k] == b@[k],
        decreases a.len() - i,
    {
        if a[i] != b[i] {
            return false;
        }
        i += 1;
    }
    assert(a@ =~= b@);
    true
}

/// Checks the frame check sequence at the end of `bits`.
///
/// The bits are taken in one by one through a window of sixteen: a bit
/// enters the register only when it leaves the window, so the last sixteen
/// (or fewer) bits are never part of the checksummed data.
pub fn fcs_validate(bits: Vec<bool>) -> (r: Result<bool, AprsError>)
    ensures
        fcs_valid(bits@) ==> r == Ok::<bool, AprsError>(true),
        !fcs_valid(bits@) ==> r == Err::<bool, AprsError>(AprsError::ChecksumMismatch),
{
    let mut buffer: Vec<bool> = Vec::new();
    let mut fcs = FCS::new();
    let mut i: usize = 0;
    while i < bits.len()
        invariant
            i <= bits.len(),
            buffer@ == bits@.subrange(fcs_split(bits@.take(i as int)), i as int),
            fcs@ == register_after(
                FCS_SEED,
                bits@.subrange(0, fcs_split(bits@.take(i as int))),
            ),
        decreases bits.len() - i,
    {
        let ghost cut = fcs_split(bits@.take(i as int));
        buffer.push(bits[i]);
        assert(buffer@ =~= bits@.subrange(cut, i + 1));
        if buffer.len() > 16 {
            let first: bool = buffer.remove(0);
            fcs.update_bit(first);
            proof {
                assert(buffer@ =~= bits@.subrange(cut + 1, i + 1));
                assert(bits@.subrange(0, cut + 1).drop_last() =~= bits@.subrange(0, cut));
            }
        }
        i += 1;
    }
    proof {
        assert(bits@.take(bits@.len() as int) =~= bits@);
    }
    let mut window: BitVec = bitvec_new();
    bitvec_extend(&mut window, buffer);
    let sent = bitvec_to_bytes(&window);
    let expected = wire_checksum(&fcs);
    if same_bytes(&sent, &expected) {
        Ok(true)
    } else {
        Err(AprsError::ChecksumMismatch)
    }
}

/// Packing the bits of a byte sequence gives the byte sequence back.
pub proof fn lemma_pack_unpack(bytes: Seq<u8>)
    ensures
        bytes_of_bits(bits_of_bytes(bytes)) == bytes,
{
    let bits = bits_of_bytes(bytes);
    assert forall|j: int| 0 <= j < bytes.len() implies packed_byte(bits, j) == bytes[j] by {
        let b = bytes[j];
        assert(bit_or_false(bits, 8 * j) == bit_of_byte(b, 0));
        assert(bit_or_false(bits, 8 * j + 1) == bit_of_byte(b, 1));
        assert(bit_or_false(bits, 8 * j + 2) == bit_of_byte(b, 2));
        assert(bit_or_false(bits, 8 * j + 3) == bit_of_byte(b, 3));
        assert(bit_or_false(bits, 8 * j + 4) == bit_of_byte(b, 4));
        assert(bit_or_false(bits, 8 * j + 5) == bit_of_byte(b, 5));
        assert(bit_or_false(bits, 8 * j + 6) == bit_of_byte(b, 6));
        assert(bit_or_false(bits, 8 * j + 7) == bit_of_byte(b, 7));
        assert(((if (b >> 7u8) & 1 == 1 { 0x80u8 } else { 0u8 })
            | (if (b >> 6u8) & 1 == 1 { 0x40u8 } else { 0u8 })
            | (if (b >> 5u8) & 1 == 1 { 0x20u8 } else { 0u8 })
            | (if (b >> 4u8) & 1 == 1 { 0x10u8 } else { 0u8 })
            | (if (b >> 3u8) & 1 == 1 { 0x08u8 } else { 0u8 })
            | (if (b >> 2u8) & 1 == 1 { 0x04u8 } else { 0u8 })
            | (if (b >> 1u8) & 1 == 1 { 0x02u8 } else { 0u8 })
            | (if (b >> 0u8) & 1 == 1 { 0x01u8 } else { 0u8 })) == b) by (bit_vector);
    }
    assert(bytes_of_bits(bits) =~= bytes);
}

/// Two bit sequences of the same whole number of octets that pack to the
/// same bytes are the same.
pub proof fn lemma_pack_injective(a: Seq<bool>, b: Seq<bool>)
    requires
        a.len() == b.len(),
        a.len() % 8 == 0,
        bytes_of_bits(a) == bytes_of_bits(b),
    ensures
        a == b,
{
    assert forall|i: int| 0 <= i < a.len() implies a[i] == b[i] by {
        let j = i / 8;
        let k = i % 8;
        assert(bytes_of_bits(a)[j] == packed_byte(a, j));
        assert(bytes_of_bits(b)[j] == packed_byte(b, j));
        let (a0, a1, a2, a3) = (a[8 * j], a[8 * j + 1], a[8 * j + 2], a[8 * j + 3]);
        let (a4, a5, a6, a7) = (a[8 * j + 4], a[8 * j + 5], a[8 * j + 6], a[8 * j + 7]);
        let (b0, b1, b2, b3) = (b[8 * j], b[8 * j + 1], b[8 * j + 2], b[8 * j + 3]);
        let (b4, b5, b6, b7) = (b[8 * j + 4], b[8 * j + 5], b[8 * j + 6], b[8 * j + 7]);
        assert(((if a0 { 0x80u8 } else { 0u8 }) | (if a1 { 0x40u8 } else { 0u8 }) | (if a2 {
            0x20u8
        } else {
            0u8
        }) | (if a3 { 0x10u8 } else { 0u8 }) | (if a4 { 0x08u8 } else { 0u8 }) | (if a5 {
            0x04u8
        } else {
            0u8
        }) | (if a6 { 0x02u8 } else { 0u8 }) | (if a7 { 0x01u8 } else { 0u8 })) == ((if b0 {
            0x80u8
        } else {
            0u8
        }) | (if b1 { 0x40u8 } else { 0u8 }) | (if b2 { 0x20u8 } else { 0u8 }) | (if b3 {
            0x10u8
        } else {
            0u8
        }) | (if b4 { 0x08u8 } else { 0u8 }) | (if b5 { 0x04u8 } else { 0u8 }) | (if b6 {
            0x02u8
        } else {
            0u8
        }) | (if b7 { 0x01u8 } else { 0u8 })) ==> a0 == b0 && a1 == b1 && a2 == b2 && a3 == b3
            && a4 == b4 && a5 == b5 && a6 == b6 && a7 == b7) by (bit_vector);
    }
    assert(a =~= b);
}

/// The wire checksum tells registers apart.
pub proof fn lemma_checksum_bytes_injective(s: u16, t: u16)
    requires
        checksum_bytes(s) == checksum_bytes(t),
    ensures
        s == t,
{
    assert(checksum_bytes(s)[0] == checksum_bytes(t)[0]);
    assert(checksum_bytes(s)[1] == checksum_bytes(t)[1]);
    let (s0, s1) = (digest_spec(s)[0], digest_spec(s)[1]);
    let (t0, t1) = (digest_spec(t)[0], digest_spec(t)[1]);
    assert(reverse_byte(s0) == reverse_byte(t0) ==> s0 == t0) by (bit_vector);
    assert(reverse_byte(s1) == reverse_byte(t1) ==> s1 == t1) by (bit_vector);
    assert((((!s) & 0xff) as u8) == (((!t) & 0xff) as u8) && (((!s) >> 8) as u8) == (((!t)
        >> 8) as u8) ==> s == t) by (bit_vector);
}

/// One step of the register keeps different registers different.
pub proof fn lemma_update_bit_injective(s: u16, t: u16, bit: bool)
    requires
        s != t,
    ensures
        update_bit_spec(s, bit) != update_bit_spec(t, bit),
{
    assert(s != t ==> update_bit_spec(s, bit) != update_bit_spec(t, bit)) by (bit_vector);
}

/// Changing one bit of the data changes the register.
pub proof fn lemma_register_sensitive(seed: u16, bits: Seq<bool>, i: int)
    requires
        0 <= i < bits.len(),
    ensures
        register_after(seed, bits.update(i, !bits[i])) != register_after(seed, bits),
    decreases bits.len(),
{
    let flipped = bits.update(i, !bits[i]);
    if i == bits.len() - 1 {
        assert(flipped.drop_last() =~= bits.drop_last());
        let s = register_after(seed, bits.drop_last());
        assert(update_bit_spec(s, true) != update_bit_spec(s, false)) by (bit_vector);
    } else {
        assert(flipped.drop_last() =~= bits.drop_last().update(i, !bits.drop_last()[i]));
        lemma_register_sensitive(seed, bits.drop_last(), i);
        lemma_update_bit_injective(
            register_after(seed, flipped.drop_last()),
            register_after(seed, bits.drop_last()),
            bits.last(),
        );
    }
}

/// Validation of data followed by sixteen bits compares those sixteen bits,
/// packed, with the wire checksum of the data.
pub proof fn lemma_fcs_valid_parts(data: Seq<bool>, tail: Seq<bool>)
    requires
        tail.len() == 16,
    ensures
        fcs_valid(data + tail) == (bytes_of_bits(tail) == checksum_bytes(
            register_after(FCS_SEED, data),
        )),
{
    let all = data + tail;
    assert(fcs_split(all) == data.len());
    assert(all.subrange(0, data.len() as int) =~= data);
    assert(all.subrange(data.len() as int, all.len() as int) =~= tail);
}

/// Every bit sequence passes validation once its frame check sequence has
/// been appended.
pub proof fn lemma_fcs_then_validate(bits: Seq<bool>)
    ensures
        fcs_valid(fcs_spec(bits)),
{
    let state = register_after(FCS_SEED, bits);
    lemma_checksum_bits(state);
    lemma_fcs_valid_parts(bits, checksum_bits(state));
}

/// A flipped data bit in front of the right checksum fails validation.
proof fn lemma_flip_in_data(bits: Seq<bool>, sum: Seq<bool>, i: int)
    requires
        sum.len() == 16,
        0 <= i < bits.len(),
        bytes_of_bits(sum) == checksum_bytes(register_after(FCS_SEED, bits)),
    ensures
        !fcs_valid((bits + sum).update(i, !bits[i])),
{
    let data = bits.update(i, !bits[i]);
    assert((bits + sum).update(i, !bits[i]) =~= data + sum);
    lemma_fcs_valid_parts(data, sum);
    lemma_register_sensitive(FCS_SEED, bits, i);
    if checksum_bytes(register_after(FCS_SEED, data)) == checksum_bytes(
        register_after(FCS_SEED, bits),
    ) {
        lemma_checksum_bytes_injective(
            register_after(FCS_SEED, data),
            register_after(FCS_SEED, bits),
        );
    }
}

/// A flipped checksum bit behind unchanged data fails validation.
proof fn lemma_flip_in_checksum(bits: Seq<bool>, sum: Seq<bool>, k: int)
    requires
        sum.len() == 16,
        0 <= k < 16,
        bytes_of_bits(sum) == checksum_bytes(register_after(FCS_SEED, bits)),
    ensures
        !fcs_valid((bits + sum).update(bits.len() + k, !sum[k])),
{
    let tail = sum.update(k, !sum[k]);
    assert((bits + sum).update(bits.len() + k, !sum[k]) =~= bits + tail);
    lemma_fcs_valid_parts(bits, tail);
    if bytes_of_bits(tail) == bytes_of_bits(sum) {
        lemma_pack_injective(tail, sum);
        assert(tail[k] == sum[k]);
    }
}

/// The checksum goes out least significant bit first: checksum bit `k` is
/// bit `k` of the one's complement of the register.
pub proof fn lemma_checksum_bit(state: u16, k: int)
    requires
        0 <= k < 16,
    ensures
        checksum_bits(state).len() == 16,
        checksum_bits(state)[k] == (((!state) >> (k as u16)) & 1 == 1),
{
    reveal(checksum_bits);
    let lo = digest_spec(state)[0];
    let hi = digest_spec(state)[1];
    assert(checksum_bytes(state).len() == 2);
    let at = k as u16;
    if k < 8 {
        let shift = (7 - k) as u8;
        assert(checksum_bits(state)[k] == bit_of_byte(reverse_byte(lo), k));
        assert(at < 8 && shift == 7 - at && lo == (((!state) & 0xff) as u8) ==> (((reverse_byte(lo)
            >> shift) & 1 == 1) == (((!state) >> at) & 1 == 1))) by (bit_vector);
    } else {
        let shift = (15 - k) as u8;
        assert(checksum_bits(state)[k] == bit_of_byte(reverse_byte(hi), k - 8));
        assert(8 <= at < 16 && shift == 15 - at && hi == (((!state) >> 8) as u8) ==> (((
        reverse_byte(hi) >> shift) & 1 == 1) == (((!state) >> at) & 1 == 1))) by (bit_vector);
    }
}

/// The checksum bits are sixteen, and packed they are the wire checksum.
pub proof fn lemma_checksum_bits(state: u16)
    ensures
        checksum_bits(state).len() == 16,
        bytes_of_bits(checksum_bits(state)) == checksum_bytes(state),
{
    reveal(checksum_bits);
    assert(checksum_bytes(state).len() == 2);
    lemma_pack_unpack(checksum_bytes(state));
}

/// Flipping any one bit of a sequence that carries its frame check sequence
/// makes validation fail.
pub proof fn lemma_fcs_detects_bit_flip(bits: Seq<bool>, i: int)
    requires
        0 <= i < fcs_spec(bits).len(),
    ensures
        !fcs_valid(fcs_spec(bits).update(i, !fcs_spec(bits)[i])),
{
    let sum = checksum_bits(register_after(FCS_SEED, bits));
    lemma_checksum_bits(register_after(FCS_SEED, bits));
    if i < bits.len() {
        assert((bits + sum)[i] == bits[i]);
        lemma_flip_in_data(bits, sum, i);
    } else {
        assert((bits + sum)[i] == sum[i - bits.len()]);
        lemma_flip_in_checksum(bits, sum, i - bits.len());
    }
}

} // verus!
