use uuid_index::text::{format_grouped, parse_grouped};

#[test]
fn format_zero_and_max() {
    assert_eq!(format_grouped(0), "00000000-0000-0000-0000-000000000000");
    assert_eq!(format_grouped(u128::MAX), "ffffffff-ffff-ffff-ffff-ffffffffffff");
}

#[test]
fn format_places_digits_in_order() {
    assert_eq!(
        format_grouped(0x0123_4567_89ab_cdef_fedc_ba98_7654_3210),
        "01234567-89ab-cdef-fedc-ba9876543210"
    );
    assert_eq!(format_grouped(0xa), "00000000-0000-0000-0000-00000000000a");
}

#[test]
fn parse_reads_digits() {
    assert_eq!(
        parse_grouped("01234567-89ab-cdef-fedc-ba9876543210"),
        Some(0x0123_4567_89ab_cdef_fedc_ba98_7654_3210)
    );
    assert_eq!(parse_grouped("00000000-0000-0000-0000-000000000000"), Some(0));
    assert_eq!(parse_grouped("ffffffff-ffff-ffff-ffff-ffffffffffff"), Some(u128::MAX));
}

#[test]
fn parse_rejects_other_shapes() {
    assert_eq!(parse_grouped("01234567-89AB-cdef-fedc-ba9876543210"), None);
    assert_eq!(parse_grouped("0123456789ab-cdef-fedc-ba9876543210"), None);
    assert_eq!(parse_grouped("01234567-89ab-cdef-fedc-ba987654321"), None);
    assert_eq!(parse_grouped(""), None);
}
