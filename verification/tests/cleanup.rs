use cursor_optimizer::cleanup::{
    classify_value_age, composer_id_from_key, find_subsequence, normalize_to_millis, parse_number_after_colon,
};
use cursor_optimizer::locations::locations_from_base;
use cursor_optimizer::paths::TargetFamily;
use cursor_optimizer::numbers::human_readable_size;

#[test]
fn accepts_only_values_older_than_cutoff() {
    let old_data = br#"{"createdAt":1700000000000,"lastUpdatedAt":1700000001000}"#;
    let new_data = br#"{"createdAt":1700000000000,"lastUpdatedAt":1900000000000}"#;
    assert_eq!(classify_value_age(old_data, 1_800_000_000_000), Some(true));
    assert_eq!(classify_value_age(new_data, 1_800_000_000_000), Some(false));
    assert_eq!(classify_value_age(b"{}", 1_800_000_000_000), None);
}

#[test]
fn normalizes_seconds_to_milliseconds() {
    assert_eq!(normalize_to_millis(1_000), 1_000_000);
    assert_eq!(normalize_to_millis(1_700_000_000_000), 1_700_000_000_000);
}

#[test]
fn parses_a_number_after_a_colon() {
    assert_eq!(parse_number_after_colon(b":1700000000000"), Some(1_700_000_000_000));
    assert_eq!(parse_number_after_colon(b":42"), None);
}

#[test]
fn finds_a_subsequence() {
    assert_eq!(find_subsequence(b"hello world", b"world"), Some(6));
    assert_eq!(find_subsequence(b"hello", b"zzz"), None);
}

#[test]
fn extracts_composer_id_from_key() {
    assert_eq!(composer_id_from_key("composerData:abc-123"), Some("abc-123"));
    assert_eq!(composer_id_from_key("bubbleId:abc-123:bubble-9"), Some("abc-123"));
    assert_eq!(composer_id_from_key("messageRequestContext:abc-123:ctx"), Some("abc-123"));
    assert_eq!(composer_id_from_key("noColon"), None);
}

#[test]
fn formats_human_sizes() {
    assert_eq!(human_readable_size(0), "0 B");
    assert_eq!(human_readable_size(512), "512 B");
    assert_eq!(human_readable_size(1024), "1.00 KiB");
    assert_eq!(human_readable_size(1_572_864), "1.50 MiB");
}

#[test]
fn derives_expected_locations() {
    let locations = locations_from_base(TargetFamily::Unix, "/base".to_string());
    assert!(locations.global_storage_directory.ends_with("globalStorage"));
    assert!(locations.state_database.ends_with("state.vscdb"));
    assert!(locations.write_ahead_log.ends_with("state.vscdb-wal"));
    assert!(locations.rollback_journal.ends_with("state.vscdb-journal"));
    assert!(locations.shared_memory.ends_with("state.vscdb-shm"));
}

#[test]
fn locations_sit_under_global_storage() {
    let locations = locations_from_base(TargetFamily::Unix, "/base".to_string());
    assert_eq!(locations.state_database, "/base/User/globalStorage/state.vscdb");
}

#[test]
fn timestamps_in_seconds_count_as_milliseconds() {
    let data = br#"{"timestamp": 1700000000}"#;
    assert_eq!(classify_value_age(data, 1_700_000_000_001), Some(true));
    assert_eq!(classify_value_age(data, 1_700_000_000_000), Some(false));
}

#[test]
fn the_newest_timestamp_decides() {
    let data = br#"{"unixMs":1000000000000,"createdAt":"1900000000000"}"#;
    assert_eq!(classify_value_age(data, 1_800_000_000_000), Some(false));
}

#[test]
fn human_sizes_round_half_to_even() {
    assert_eq!(human_readable_size(1023), "1023 B");
    assert_eq!(human_readable_size(1_048_576), "1.00 MiB");
    assert_eq!(human_readable_size(u64::MAX), "16777216.00 TiB");
    for bytes in [1025u64, 1536, 10_000, 123_456_789, 9_876_543_210, 1_099_511_627_776, 5_000_000_000_000_000] {
        let mut value = bytes as f64;
        let mut unit = 0;
        let labels = ["B", "KiB", "MiB", "GiB", "TiB"];
        while value >= 1024.0 && unit < 4 {
            value /= 1024.0;
            unit += 1;
        }
        assert_eq!(human_readable_size(bytes), format!("{value:.2} {}", labels[unit]));
    }
}

#[test]
fn number_parsing_needs_nine_digits_and_saturates() {
    assert_eq!(parse_number_after_colon(b" \t: \"123456789"), Some(123_456_789));
    assert_eq!(parse_number_after_colon(b":99999999999999999999999"), Some(i64::MAX));
    assert_eq!(parse_number_after_colon(b"12345678"), None);
}
