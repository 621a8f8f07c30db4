use avail_light::confidence::{calculate_confidence, serialised_confidence};
use avail_light::decimal::u64_to_decimal;
use avail_light::types::Position;

#[test]
fn confidence_of_zero_count_is_zero() {
    assert_eq!(calculate_confidence(0), 0);
}

#[test]
fn confidence_of_five_matches_formula() {
    // 100 * (1 - 1/32) = 96.875 percent, scaled by 10^7.
    assert_eq!(calculate_confidence(5), 968_750_000);
}

#[test]
fn confidence_strictly_increases_while_representable() {
    let mut prev = calculate_confidence(0);
    for count in 1..=29u32 {
        let next = calculate_confidence(count);
        assert!(next > prev, "confidence must grow at count {count}");
        prev = next;
    }
}

#[test]
fn confidence_never_reaches_hundred_percent() {
    for count in [0u32, 1, 7, 29, 30, 31, 64, 1000, u32::MAX] {
        assert!(calculate_confidence(count) < 1_000_000_000);
    }
}

#[test]
fn confidence_saturates_at_scale_limit() {
    assert_eq!(calculate_confidence(30), 999_999_999);
    assert_eq!(calculate_confidence(64), 999_999_999);
}

#[test]
fn serialised_confidence_packs_block_and_factor() {
    // 1 << 32 == 4294967296.
    assert_eq!(serialised_confidence(1, 0), "4294967296");
    assert_eq!(
        serialised_confidence(5000, 920_000_000),
        "21475756480000"
    );
}

#[test]
fn serialised_confidence_round_trips() {
    let block: u64 = 42;
    let factor = calculate_confidence(16);
    let packed: u128 = serialised_confidence(block, factor).parse().unwrap();
    assert_eq!((packed >> 32) as u64, block);
    assert_eq!((packed & 0xFFFF_FFFF) as u64, factor);
}

#[test]
fn serialised_confidence_round_trips_large_block() {
    let block = u64::MAX;
    let factor = calculate_confidence(3);
    assert_eq!(factor, 875_000_000);
    let packed: u128 = serialised_confidence(block, factor).parse().unwrap();
    assert_eq!((packed >> 32) as u64, block);
    assert_eq!((packed & 0xFFFF_FFFF) as u64, factor);
}

#[test]
fn decimal_rendering_matches_std() {
    for v in [0u64, 1, 9, 10, 99, 100, 12345, u64::MAX] {
        assert_eq!(u64_to_decimal(v), v.to_string());
    }
}

#[test]
fn reference_is_block_colon_col_colon_row() {
    let position = Position { row: 1, col: 2 };
    assert_eq!(position.reference(100), "100:2:1");
    let origin = Position { row: 0, col: 0 };
    assert_eq!(origin.reference(0), "0:0:0");
}
