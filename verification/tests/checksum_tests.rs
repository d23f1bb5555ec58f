use gemma4_fixture::checksum::checksum;

#[test]
fn checksum_of_nothing_is_zero() {
    assert_eq!(checksum(&[], 0), 0);
    assert_eq!(checksum(&[], 17), 0);
}

#[test]
fn checksum_pads_the_last_word_with_zeros() {
    assert_eq!(checksum(&[1, 2, 3, 4, 5], 0), 67306000);
    assert_eq!(checksum(&[1, 2, 3, 4, 5], 0), checksum(&[1, 2, 3, 4, 5, 0, 0, 0], 0));
}

#[test]
fn checksum_weights_by_word_offset() {
    assert_eq!(checksum(&[1, 2, 3, 4, 5], 3), 471141940);
    assert_eq!(checksum(&[5, 0, 0, 0], 0), 5);
    assert_eq!(checksum(&[5, 0, 0, 0], 1), 15);
}

#[test]
fn checksum_wraps_modulo_two_to_the_32() {
    assert_eq!(checksum(&[0xFF; 8], 0x7FFF_FFFF), 0);
}

#[test]
fn checksum_composes_over_concatenation() {
    let bytes: Vec<u8> = (1..=12).collect();
    assert_eq!(checksum(&bytes, 0), 1481590333);
    let whole = checksum(&bytes, 0);
    let split = checksum(&bytes[..8], 0).wrapping_add(checksum(&bytes[8..], 2));
    assert_eq!(whole, split);
}

#[test]
fn trailing_zero_bytes_add_nothing() {
    let bytes = [9u8, 8, 7, 6, 5, 4];
    for extra in 0..12 {
        let mut padded = bytes.to_vec();
        padded.extend(std::iter::repeat(0u8).take(extra));
        assert_eq!(checksum(&padded, 5), checksum(&bytes, 5), "{extra}");
    }
}
