use unix_tools::filesize::{Filesize, SIZE_LIMIT};

#[test]
fn bytes_below_1024() {
    assert_eq!(Filesize(0).to_string(), "   0 ");
    assert_eq!(Filesize(5).to_string(), "   5 ");
    assert_eq!(Filesize(1023).to_string(), "1023 ");
}

#[test]
fn kilobytes_rounded() {
    assert_eq!(Filesize(1024).to_string(), "   1k");
    assert_eq!(Filesize(1535).to_string(), "   1k");
    assert_eq!(Filesize(1536).to_string(), "   2k");
    assert_eq!(Filesize(12 * 1024).to_string(), "  12k");
    assert_eq!(Filesize(1047552).to_string(), "1023k");
}

#[test]
fn rounding_up_to_1024_moves_to_next_unit() {
    // 1023.5k rounds to 1024k, so it is shown in megabytes.
    assert_eq!(Filesize(1048064).to_string(), "   1M");
    assert_eq!(Filesize(1048063).to_string(), "1023k");
    assert_eq!(Filesize(1048576).to_string(), "   1M");
}

#[test]
fn megabytes_and_gigabytes() {
    assert_eq!(Filesize(5 * 1048576 + 524288).to_string(), "   6M");
    assert_eq!(Filesize(5 * 1073741824).to_string(), "   5G");
    assert_eq!(Filesize(SIZE_LIMIT - 1).to_string(), "1023G");
}

#[test]
fn scale_values() {
    assert_eq!(Filesize(0).scale(), Some((0, 0)));
    assert_eq!(Filesize(1536).scale(), Some((2, 1)));
    assert_eq!(Filesize(3 * 1048576).scale(), Some((3, 2)));
    assert_eq!(Filesize(SIZE_LIMIT - 1).scale(), Some((1023, 3)));
}

#[test]
fn no_scale_from_limit_on() {
    assert_eq!(Filesize(SIZE_LIMIT).scale(), None);
    assert_eq!(Filesize(u64::MAX).scale(), None);
    assert_eq!(SIZE_LIMIT, 1098974756864);
}

#[test]
fn shown_number_within_half_a_unit() {
    for size in [1000u64, 4095, 4096, 999_999, 123_456_789, 987_654_321_000] {
        let (n, i) = Filesize(size).scale().unwrap();
        let unit = 1u64 << (10 * i);
        assert!(n < 1024);
        assert!(n * unit <= size + unit / 2);
        assert!(i == 0 || size < n * unit + unit / 2);
        assert_eq!(Filesize(size).to_string().len(), 5);
    }
}
