use rimg::dates::parse_exif_datetime;

#[test]
fn exif_date_key() {
    // 1970:01:01 00:00:00 -> day 1 of the approximation
    assert_eq!(parse_exif_datetime("1970:01:01 00:00:00"), Some(86400));
    // (54 * 365 + 55 / 4 + 0 * 30 + 15) days, then 14:30:00
    let days = 54 * 365 + 55 / 4 + 15;
    assert_eq!(parse_exif_datetime("2024:01:15 14:30:00"), Some(days * 86400 + 14 * 3600 + 30 * 60));
    assert_eq!(parse_exif_datetime("2024:01:15 14:30:00 extra"), Some(days * 86400 + 52200));
}

#[test]
fn exif_date_rejects_bad_input() {
    assert_eq!(parse_exif_datetime("2024:01:15"), None);
    assert_eq!(parse_exif_datetime("1969:12:31 23:59:59"), None);
    assert_eq!(parse_exif_datetime("2024:13:01 00:00:00"), None);
    assert_eq!(parse_exif_datetime("2024:00:01 00:00:00"), None);
    assert_eq!(parse_exif_datetime("2024:01:32 00:00:00"), None);
    assert_eq!(parse_exif_datetime("2024:01:01  00:00:00"), None);
    assert_eq!(parse_exif_datetime("20x4:01:01 00:00:00"), None);
    assert_eq!(parse_exif_datetime("+2024:+01:01 00:00:00").is_some(), true);
    assert_eq!(parse_exif_datetime("99999999999999999999:01:01 00:00:00"), None);
}
