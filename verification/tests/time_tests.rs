use std::time::{Duration, SystemTime, UNIX_EPOCH};
use mtpcopy::file_info::{can_skip_copying, system_time_to_string, FileInfo};
use mtpcopy::file_reader::{BufferReader, FileReader};
use mtpcopy::time_transfer::{
    format_unix_seconds, parse_u64, string_to_system_time, u64_to_dec_string,
};

fn info(name: &str, size: u64, is_folder: bool, modified: Option<&str>) -> FileInfo {
    FileInfo {
        name: name.to_string(),
        data_size: size,
        is_folder,
        is_hidden: false,
        is_system: false,
        can_delete: true,
        time_created: None,
        time_modified: modified.map(|s| s.to_string()),
    }
}

#[test]
fn system_time_to_string_converts_correctly() {
    let system_time = SystemTime::UNIX_EPOCH + Duration::new(1627846261, 0);
    let time_string = system_time_to_string(system_time);
    assert_eq!(time_string, "1627846261");
}

#[test]
fn system_time_to_string_handles_error() {
    let system_time = SystemTime::UNIX_EPOCH - Duration::new(1, 0);
    let time_string = system_time_to_string(system_time);
    assert!(time_string.starts_with("Error:"));
}

#[test]
fn common_variant_reports_invalid_for_a_pre_epoch_time() {
    let system_time = SystemTime::UNIX_EPOCH - Duration::new(1, 0);
    let s = mtpcopy::time_transfer::system_time_to_string(system_time);
    assert_eq!(s, "Invalid SystemTime");
    let t = mtpcopy::time_transfer::system_time_to_string(
        SystemTime::UNIX_EPOCH + Duration::new(42, 0),
    );
    assert_eq!(t, "42");
}

#[test]
fn decimal_rendering_is_exact() {
    assert_eq!(u64_to_dec_string(0), "0");
    assert_eq!(u64_to_dec_string(7), "7");
    assert_eq!(u64_to_dec_string(1627846261), "1627846261");
    assert_eq!(u64_to_dec_string(u64::MAX), "18446744073709551615");
    assert_eq!(format_unix_seconds(Some(10)), "10");
    assert_eq!(format_unix_seconds(None), "Invalid SystemTime");
}

#[test]
fn parsing_accepts_exactly_decimal_u64() {
    assert_eq!(parse_u64("0"), Some(0));
    assert_eq!(parse_u64("+123"), Some(123));
    assert_eq!(parse_u64("18446744073709551615"), Some(u64::MAX));
    assert_eq!(parse_u64("18446744073709551616"), None);
    assert_eq!(parse_u64(""), None);
    assert_eq!(parse_u64("+"), None);
    assert_eq!(parse_u64("12a"), None);
    assert_eq!(parse_u64("-1"), None);
}

#[test]
fn string_to_system_time_round_trips() {
    let t = string_to_system_time("1627846261").unwrap();
    assert_eq!(t.duration_since(UNIX_EPOCH).unwrap().as_secs(), 1627846261);
    let err = string_to_system_time("not a number").unwrap_err();
    assert_eq!(err, "Invalid string format");
}

#[test]
fn skip_test_compares_size_kind_and_time() {
    // same size, both times absent: skip
    assert!(can_skip_copying(&info("a", 4, false, None), &info("a", 4, false, None)));
    // same size, equal times: skip
    assert!(can_skip_copying(
        &info("a", 4, false, Some("100")),
        &info("a", 4, false, Some("100")),
    ));
    // differing sizes: no skip
    assert!(!can_skip_copying(&info("a", 4, false, None), &info("a", 5, false, None)));
    // one side missing its time: no skip
    assert!(!can_skip_copying(
        &info("a", 4, false, Some("100")),
        &info("a", 4, false, None),
    ));
    // a folder in the way is never skipped over
    assert!(!can_skip_copying(&info("a", 0, false, None), &info("a", 0, true, None)));
}

#[test]
fn buffer_reader_hands_out_bounded_chunks() {
    let mut r = BufferReader::new(b"Hello, world!".to_vec());
    assert!(r.buffer_size() >= 1);
    let c1 = r.seek(5).unwrap().unwrap();
    assert_eq!(c1, b"Hello".to_vec());
    let c2 = r.seek(100).unwrap().unwrap();
    assert_eq!(c2, b", world!".to_vec());
    assert!(r.seek(5).unwrap().is_none());
}
