use tank_engine::noise::{gradient_index, hash, hash_mantissa};

#[test]
fn hash_of_origin_with_zero_seed_is_zero() {
    assert_eq!(hash(0, 0, 0), 0);
}

#[test]
fn hash_known_values() {
    assert_eq!(hash(0, 0, 42), 1802039566);
    assert_eq!(hash(1, 0, 42), 1026818489);
    assert_eq!(hash(-1, 3, 7), 3115991261);
    assert_eq!(hash(5, -2, 42), 2073903434);
}

#[test]
fn hash_is_deterministic_and_seed_dependent() {
    assert_eq!(hash(12, -7, 99), hash(12, -7, 99));
    assert_ne!(hash(12, -7, 99), hash(12, -7, 100));
    assert_ne!(hash(12, -7, 99), hash(-7, 12, 99));
}

#[test]
fn gradient_index_takes_three_low_bits() {
    assert_eq!(gradient_index(1802039566), 6);
    assert_eq!(gradient_index(1026818489), 1);
    assert_eq!(gradient_index(7), 7);
    assert_eq!(gradient_index(8), 0);
    assert_eq!(gradient_index(u32::MAX), 7);
}

#[test]
fn hash_mantissa_keeps_24_bits() {
    assert_eq!(hash_mantissa(1802039566), 6877454);
    assert_eq!(hash_mantissa(u32::MAX), 0xFF_FFFF);
    assert_eq!(hash_mantissa(0x0100_0000), 0);
    for x in -20..20 {
        for y in -20..20 {
            let m = hash_mantissa(hash(x, y, 42));
            let f = m as f32 / 0xFF_FFFF as f32;
            assert!((0.0..=1.0).contains(&f));
        }
    }
}
