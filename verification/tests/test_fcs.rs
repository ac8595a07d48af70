use aprs::error::AprsError;
use aprs::fcs::{fcs, fcs_validate, reverse_bits, FCS};

fn bits_of(text: &str) -> Vec<bool> {
    text.chars().map(|c| c == '1').collect()
}

#[test]
fn digest_of_nothing() {
    let register = FCS::new();
    assert_eq!(register.digest(), vec![0x00, 0x00]);
}

#[test]
fn update_bit_from_seed() {
    let mut same = FCS::new();
    same.update_bit(true);
    assert_eq!(same.digest(), vec![0x00, 0x80]);
    let mut differs = FCS::new();
    differs.update_bit(false);
    assert_eq!(differs.digest(), vec![0x08, 0x04]);
}

#[test]
fn digest_of_bytes_is_low_octet_first() {
    let mut register = FCS::new();
    register.update_bytes(b"123456789");
    assert_eq!(register.digest(), vec![0x6b, 0x72]);
    let mut single = FCS::new();
    single.update_bytes(b"A");
    assert_eq!(single.digest(), vec![0x62, 0x57]);
}

#[test]
fn update_bytes_feeds_high_bit_first() {
    let mut by_bytes = FCS::new();
    by_bytes.update_bytes(&[0b1011_0010]);
    let mut by_bits = FCS::new();
    for bit in bits_of("10110010") {
        by_bits.update_bit(bit);
    }
    assert_eq!(by_bytes.digest(), by_bits.digest());
}

#[test]
fn reverse_bits_examples() {
    assert_eq!(reverse_bits(0x00), 0x00);
    assert_eq!(reverse_bits(0x01), 0x80);
    assert_eq!(reverse_bits(0x80), 0x01);
    assert_eq!(reverse_bits(0x6b), 0xd6);
    assert_eq!(reverse_bits(0xf0), 0x0f);
    assert_eq!(reverse_bits(0xff), 0xff);
    for b in 0..=255u8 {
        assert_eq!(reverse_bits(b), b.reverse_bits());
    }
}

#[test]
fn fcs_appends_sixteen_bits() {
    assert_eq!(fcs(bits_of("101100101")), bits_of("1011001010010001100001100"));
    assert_eq!(fcs(Vec::new()), bits_of("0000000000000000"));
}

#[test]
fn fcs_then_validate_succeeds() {
    let samples = ["", "1", "0", "101100101", "1111111111111111", "000000000000000000000001"];
    for sample in samples.iter() {
        assert_eq!(fcs_validate(fcs(bits_of(sample))), Ok(true));
    }
}

#[test]
fn any_flipped_bit_is_detected() {
    let sent = fcs(bits_of("0110100001100101011011000110110001101111"));
    for i in 0..sent.len() {
        let mut received = sent.clone();
        received[i] = !received[i];
        assert_eq!(fcs_validate(received), Err(AprsError::ChecksumMismatch));
    }
}

#[test]
fn short_input_fails_validation() {
    assert_eq!(fcs_validate(Vec::new()), Err(AprsError::ChecksumMismatch));
    assert_eq!(fcs_validate(bits_of("00000000")), Err(AprsError::ChecksumMismatch));
    assert_eq!(fcs_validate(bits_of("1000000000000000")), Err(AprsError::ChecksumMismatch));
}

#[test]
fn sixteen_zero_bits_are_the_checksum_of_nothing() {
    assert_eq!(fcs_validate(bits_of("0000000000000000")), Ok(true));
}

#[test]
fn a_short_tail_is_filled_up_with_zeros() {
    assert_eq!(fcs_validate(bits_of("000000000")), Ok(true));
    assert_eq!(fcs_validate(bits_of("000000001")), Err(AprsError::ChecksumMismatch));
}
