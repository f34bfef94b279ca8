use cleansys::text::{decimal_string, format_size};

#[test]
fn test_format_size_bytes() {
    assert_eq!(format_size(0), "0 bytes");
    assert_eq!(format_size(1), "1 bytes");
    assert_eq!(format_size(512), "512 bytes");
    assert_eq!(format_size(1023), "1023 bytes");
}

#[test]
fn test_format_size_kilobytes() {
    assert_eq!(format_size(1024), "1.00 KB");
    assert_eq!(format_size(2048), "2.00 KB");
    assert_eq!(format_size(1536), "1.50 KB");
    assert_eq!(format_size(10240), "10.00 KB");
}

#[test]
fn test_format_size_megabytes() {
    assert_eq!(format_size(1048576), "1.00 MB");
    assert_eq!(format_size(2097152), "2.00 MB");
    assert_eq!(format_size(1572864), "1.50 MB");
    assert_eq!(format_size(104857600), "100.00 MB");
}

#[test]
fn test_format_size_gigabytes() {
    assert_eq!(format_size(1073741824), "1.00 GB");
    assert_eq!(format_size(2147483648), "2.00 GB");
    assert_eq!(format_size(1610612736), "1.50 GB");
    assert_eq!(format_size(10737418240), "10.00 GB");
}

#[test]
fn test_format_size_edge_cases() {
    assert_eq!(format_size(u64::MAX), "17179869184.00 GB");
}

#[test]
fn test_format_size_precision() {
    assert_eq!(format_size(1536), "1.50 KB");
    assert_eq!(format_size(1024 + 512), "1.50 KB");
    assert_eq!(format_size(1024 * 1024 + 512 * 1024), "1.50 MB");
}

#[test]
fn test_format_size_rounding() {
    assert_eq!(format_size(1025), "1.00 KB");
    assert_eq!(format_size(1030), "1.01 KB");
}

#[test]
fn test_size_formatting_chain() {
    let sizes = vec![
        (0, "0 bytes"),
        (1024, "1.00 KB"),
        (1024 * 1024, "1.00 MB"),
        (1024 * 1024 * 1024, "1.00 GB"),
    ];

    for (bytes, expected) in sizes {
        assert_eq!(format_size(bytes), expected);
    }
}

#[test]
fn test_mixed_size_formatting() {
    let test_cases = vec![
        (500, "500 bytes"),
        (1500, "1.46 KB"),
        (1048576 + 524288, "1.50 MB"),
        (2147483648 + 1073741824, "3.00 GB"),
    ];

    for (bytes, expected) in test_cases {
        assert_eq!(format_size(bytes), expected);
    }
}

#[test]
fn format_size_rounds_ties_to_even() {
    // 1.125 KB and 1.375 KB are exact ties at two places.
    assert_eq!(format_size(1152), "1.12 KB");
    assert_eq!(format_size(1408), "1.38 KB");
}

#[test]
fn decimal_string_writes_digits() {
    assert_eq!(decimal_string(0), "0");
    assert_eq!(decimal_string(907), "907");
    assert_eq!(decimal_string(u64::MAX), "18446744073709551615");
}
