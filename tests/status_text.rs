use rimg::status::{days_to_date, format_file_size, format_system_time};

#[test]
fn test_format_file_size_bytes() {
    assert_eq!(format_file_size(0), "0 B");
    assert_eq!(format_file_size(999), "999 B");
}

#[test]
fn test_format_file_size_kb() {
    assert_eq!(format_file_size(1000), "1.0 KB");
    assert_eq!(format_file_size(1500), "1.5 KB");
    assert_eq!(format_file_size(1536), "1.5 KB");
    assert_eq!(format_file_size(999_999), "999.9 KB");
}

#[test]
fn test_format_file_size_mb() {
    assert_eq!(format_file_size(1_000_000), "1.0 MB");
    assert_eq!(format_file_size(2_400_000), "2.4 MB");
    assert_eq!(format_file_size(10_500_000), "10.5 MB");
}

#[test]
fn test_days_to_date_epoch() {
    let (y, m, d) = days_to_date(0);
    assert_eq!((y, m, d), (1970, 1, 1));
}

#[test]
fn test_days_to_date_known() {
    let (y, m, d) = days_to_date(10957);
    assert_eq!((y, m, d), (2000, 1, 1));
}

#[test]
fn test_days_to_date_leap_year() {
    let (y, m, d) = days_to_date(11016);
    assert_eq!((y, m, d), (2000, 2, 29));
}

#[test]
fn test_days_to_date_end_of_year() {
    let (y, m, d) = days_to_date(364);
    assert_eq!((y, m, d), (1970, 12, 31));
}

#[test]
fn system_time_is_zero_padded() {
    assert_eq!(format_system_time(0), "1970-01-01 00:00");
    // 2000-02-29 08:05
    assert_eq!(format_system_time(11016 * 86400 + 8 * 3600 + 5 * 60 + 59), "2000-02-29 08:05");
}
