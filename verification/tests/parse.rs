use avx2_kernels::parse::parse_usize;

#[test]
fn parse_usize_reads_decimal_literals() {
    assert_eq!(parse_usize("42"), Some(42));
    assert_eq!(parse_usize("0"), Some(0));
    assert_eq!(parse_usize("+7"), Some(7));
    assert_eq!(parse_usize("007"), Some(7));
    assert_eq!(parse_usize(&usize::MAX.to_string()), Some(usize::MAX));
}

#[test]
fn parse_usize_rejects_other_text() {
    assert_eq!(parse_usize(""), None);
    assert_eq!(parse_usize("+"), None);
    assert_eq!(parse_usize("4a"), None);
    assert_eq!(parse_usize("5usize"), None);
    assert_eq!(parse_usize("-1"), None);
    assert_eq!(parse_usize("99999999999999999999999"), None);
}
