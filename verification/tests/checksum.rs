use costume_save::checksum::{checksum, validity_id, MAX_VALIDITY_ID_LEN};
use costume_save::cipher::{cipher_lookup, VALIDITY_ID_CIPHER};

fn reference_checksum(payload: &[u8]) -> i32 {
    let mut low: u16 = 0;
    let mut high: u16 = 0;
    for &byte in payload {
        low = low.wrapping_add(VALIDITY_ID_CIPHER[byte as usize]);
        high = high.wrapping_add(low);
    }
    (((high as u32) << 16) | low as u32) as i32
}

#[test]
fn cipher_table_has_its_known_entries() {
    assert_eq!(VALIDITY_ID_CIPHER.len(), 256);
    assert_eq!(cipher_lookup(0), 0xBCD1);
    assert_eq!(cipher_lookup(1), 0xBB65);
    assert_eq!(cipher_lookup(21), 0x02AF);
    assert_eq!(cipher_lookup(156), 0x00C3);
    assert_eq!(cipher_lookup(214), 0x007A);
    assert_eq!(cipher_lookup(255), 0xD1A5);
    let sum: u32 = VALIDITY_ID_CIPHER.iter().map(|&entry| entry as u32).sum();
    assert_eq!(sum, 8_193_909);
}

#[test]
fn cipher_lookup_agrees_with_the_table() {
    for byte in 0..=255u8 {
        assert_eq!(cipher_lookup(byte), VALIDITY_ID_CIPHER[byte as usize]);
    }
}

#[test]
fn checksum_of_a_single_zero_byte() {
    // low = 0xBCD1, high = 0xBCD1: the pattern 0xBCD1BCD1, read as signed.
    assert_eq!(checksum(&[0x00]), 0xBCD1_BCD1u32 as i32);
    assert_eq!(checksum(&[0x00]), -1127105327);
    assert_eq!(validity_id(&[0x00]), b"7799-1127105327\0".to_vec());
}

#[test]
fn checksum_of_nothing_is_zero() {
    assert_eq!(checksum(&[]), 0);
    assert_eq!(validity_id(&[]), b"77990\0".to_vec());
}

#[test]
fn checksum_of_two_bytes_adds_the_low_accumulator_twice() {
    // low: 0xBCD1, then 0xBCD1 + 0xBB65 = 0x7836 (mod 65536)
    // high: 0xBCD1, then 0xBCD1 + 0x7836 = 0x3507 (mod 65536)
    assert_eq!(checksum(&[0x00, 0x01]), 0x3507_7836);
    assert_eq!(validity_id(&[0x00, 0x01]), b"7799889681974\0".to_vec());
}

#[test]
fn checksum_depends_on_the_order_of_the_bytes() {
    assert_ne!(checksum(&[0x00, 0x01]), checksum(&[0x01, 0x00]));
}

#[test]
fn checksum_matches_wrapping_accumulators() {
    let mut payload: Vec<u8> = Vec::new();
    let mut seed: u32 = 0x1234_5678;
    for length in 0..400usize {
        assert_eq!(checksum(&payload), reference_checksum(&payload), "length {}", length);
        seed = seed.wrapping_mul(1_664_525).wrapping_add(1_013_904_223);
        payload.push((seed >> 24) as u8);
    }
}

#[test]
fn validity_id_is_the_prefix_the_decimal_value_and_a_zero() {
    let mut payload: Vec<u8> = Vec::new();
    let mut seed: u32 = 0xCAFE_F00D;
    for _ in 0..300usize {
        seed = seed.wrapping_mul(1_664_525).wrapping_add(1_013_904_223);
        payload.push((seed >> 16) as u8);
        let expected = format!("7799{}\0", reference_checksum(&payload));
        let id = validity_id(&payload);
        assert_eq!(id, expected.into_bytes());
        assert!(id.len() >= 6 && id.len() <= MAX_VALIDITY_ID_LEN);
    }
}

#[test]
fn validity_id_is_the_same_every_time() {
    let payload = b"<Costume specification>".to_vec();
    let first = validity_id(&payload);
    let second = validity_id(&payload);
    assert_eq!(first, second);
}

#[test]
fn validity_id_of_the_most_negative_checksum_has_sixteen_bytes() {
    // Search a short payload whose checksum has ten digits and a sign.
    let mut found = false;
    for a in 0..=255u8 {
        for b in 0..=255u8 {
            let value = checksum(&[a, b]);
            if value <= -1_000_000_000 {
                let id = validity_id(&[a, b]);
                assert_eq!(id.len(), 16);
                assert_eq!(id, format!("7799{}\0", value).into_bytes());
                found = true;
            }
        }
    }
    assert!(found);
}
