use bullet_hell::score::{add_score, format_high_score, parse_high_score, score_value};

#[test]
fn score_value_rounds_to_pixels() {
    assert_eq!(score_value(20_000), 20);
    assert_eq!(score_value(16_499), 16);
    assert_eq!(score_value(16_500), 17);
    assert_eq!(score_value(64_000), 64);
    assert_eq!(score_value(1), 0);
}

#[test]
fn add_score_saturates() {
    assert_eq!(add_score(3, 4), 7);
    assert_eq!(add_score(0, 0), 0);
    assert_eq!(add_score(u32::MAX - 1, 5), u32::MAX);
    assert_eq!(add_score(u32::MAX, 64), u32::MAX);
}

#[test]
fn format_writes_plain_decimal() {
    assert_eq!(format_high_score(0), b"0".to_vec());
    assert_eq!(format_high_score(7), b"7".to_vec());
    assert_eq!(format_high_score(12345), b"12345".to_vec());
    assert_eq!(format_high_score(u32::MAX), b"4294967295".to_vec());
}

#[test]
fn parse_reads_plain_decimal() {
    assert_eq!(parse_high_score(&b"0".to_vec()), 0);
    assert_eq!(parse_high_score(&b"42".to_vec()), 42);
    assert_eq!(parse_high_score(&b"042".to_vec()), 42);
    assert_eq!(parse_high_score(&b"4294967295".to_vec()), u32::MAX);
}

#[test]
fn parse_rejects_missing_or_corrupt_store() {
    assert_eq!(parse_high_score(&Vec::new()), 0);
    assert_eq!(parse_high_score(&b"12a".to_vec()), 0);
    assert_eq!(parse_high_score(&b"+5".to_vec()), 0);
    assert_eq!(parse_high_score(&b" 42".to_vec()), 0);
    assert_eq!(parse_high_score(&b"42\n".to_vec()), 0);
    assert_eq!(parse_high_score(&b"-1".to_vec()), 0);
    assert_eq!(parse_high_score(&b"4294967296".to_vec()), 0);
    assert_eq!(parse_high_score(&b"99999999999999999999".to_vec()), 0);
}

#[test]
fn high_score_round_trips() {
    for h in [0u32, 1, 9, 10, 99, 100, 1000, 65_535, 123_456_789, u32::MAX] {
        assert_eq!(parse_high_score(&format_high_score(h)), h);
    }
}
