use axum_jetpack::size::{parse_human_size, SizeLimit, SizeUnit};

#[test]
fn test_parse_human_size() {
    // Test bytes (no unit)
    assert_eq!(parse_human_size("1024").unwrap(), 1024);

    // Test decimal units
    assert_eq!(parse_human_size("1KB").unwrap(), 1000);
    assert_eq!(parse_human_size("1kb").unwrap(), 1000); // Case insensitive
    assert_eq!(parse_human_size("1.5MB").unwrap(), 1_500_000);
    assert_eq!(parse_human_size("2.5 GB").unwrap(), 2_500_000_000); // With space

    // Test binary units
    assert_eq!(parse_human_size("1KiB").unwrap(), 1024);
    assert_eq!(parse_human_size("1MiB").unwrap(), 1_048_576);
    assert_eq!(parse_human_size("1GiB").unwrap(), 1_073_741_824);

    // Test bit units
    assert_eq!(parse_human_size("1Mbit").unwrap(), 125_000);
    assert_eq!(parse_human_size("10Mbit").unwrap(), 1_250_000);
    assert_eq!(parse_human_size("1Gbit").unwrap(), 125_000_000);

    // Test international decimal format (comma separator)
    assert_eq!(parse_human_size("1,5MB").unwrap(), 1_500_000);

    // Test error cases
    assert!(parse_human_size("").is_err()); // Empty string
    assert!(parse_human_size("abc").is_err()); // No number
    assert!(parse_human_size("1XB").is_err()); // Unknown unit
}

#[test]
fn test_size_limit_from_str() {
    // Test From<&str> implementation
    let limit: SizeLimit = "2MB".into();
    assert_eq!(limit.0, 2_000_000);

    let limit: SizeLimit = "1.5GB".into();
    assert_eq!(limit.0, 1_500_000_000);

    let limit: SizeLimit = "100Mbit".into();
    assert_eq!(limit.0, 12_500_000); // 100 × 125,000
}

#[test]
fn test_parse_human_size_more_shapes() {
    assert_eq!(parse_human_size("1 GB").unwrap(), 1_000_000_000);
    assert_eq!(parse_human_size("2 MiB").unwrap(), 2_097_152);
    assert_eq!(parse_human_size("1.5GiB").unwrap(), 1_610_612_736);
    assert_eq!(parse_human_size("10 Gbit").unwrap(), 1_250_000_000);
    assert_eq!(parse_human_size("4096").unwrap(), 4_096);
    assert_eq!(parse_human_size("2,5 GB").unwrap(), 2_500_000_000);
    assert_eq!(parse_human_size("  8 kbit  ").unwrap(), 1_000);
    assert_eq!(parse_human_size(".5MB").unwrap(), 500_000);
    assert_eq!(parse_human_size("2.MB").unwrap(), 2_000_000);
    // Truncation toward zero, as in a float-to-integer cast.
    assert_eq!(parse_human_size("2.5").unwrap(), 2);
    assert!(parse_human_size("1.2.3MB").is_err()); // Invalid number
    assert!(parse_human_size(".").is_err()); // No digit
    assert!(parse_human_size("TB").is_err()); // No number
}

#[test]
fn test_size_unit_from_str() {
    assert_eq!(SizeUnit::from_str("MB"), Some(SizeUnit::Megabytes));
    assert_eq!(SizeUnit::from_str("mb"), Some(SizeUnit::Megabytes));
    assert_eq!(SizeUnit::from_str("Mb"), Some(SizeUnit::Megabytes));
    assert_eq!(SizeUnit::from_str("megabyte"), Some(SizeUnit::Megabytes));
    assert_eq!(SizeUnit::from_str("megabytes"), Some(SizeUnit::Megabytes));
    assert_eq!(SizeUnit::from_str("gigabyte"), Some(SizeUnit::Gigabytes));
    assert_eq!(SizeUnit::from_str("MiB"), Some(SizeUnit::Mebibytes));
    assert_eq!(SizeUnit::from_str("mebibyte"), Some(SizeUnit::Mebibytes));
    assert_eq!(SizeUnit::from_str("gibibytes"), Some(SizeUnit::Gibibytes));
    assert_eq!(SizeUnit::from_str("Mbit"), Some(SizeUnit::Megabits));
    assert_eq!(SizeUnit::from_str("megabit"), Some(SizeUnit::Megabits));
    assert_eq!(SizeUnit::from_str("gigabits"), Some(SizeUnit::Gigabits));
    assert_eq!(SizeUnit::from_str("b"), Some(SizeUnit::Bytes));
    assert_eq!(SizeUnit::from_str("bytes"), Some(SizeUnit::Bytes));
    assert_eq!(SizeUnit::from_str("kib"), Some(SizeUnit::Kibibytes));
    assert_eq!(SizeUnit::from_str("kbit"), Some(SizeUnit::Kilobits));
    assert_eq!(SizeUnit::from_str("TB"), None);
    assert_eq!(SizeUnit::from_str("foo"), None);
}

#[test]
fn test_size_limit_constructors() {
    let limit = SizeLimit::bytes(1024);
    assert_eq!(limit.0, 1024);
    let limit = SizeLimit::from(2048usize);
    assert_eq!(limit.0, 2048);
    let limit: SizeLimit = String::from("100KB").into();
    assert_eq!(limit.0, 100_000);
    // An unparsable string yields a zero limit.
    let limit: SizeLimit = "nonsense".into();
    assert_eq!(limit.0, 0);
}
