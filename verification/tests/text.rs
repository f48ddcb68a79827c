use c2mlir::text::{dec_to_string, eco_from_str, eco_to_string, i64_to_string, spaces};

#[test]
fn decimal_rendering() {
    assert_eq!(dec_to_string(0), "0");
    assert_eq!(dec_to_string(7), "7");
    assert_eq!(dec_to_string(10), "10");
    assert_eq!(dec_to_string(90125), "90125");
    assert_eq!(dec_to_string(u64::MAX), "18446744073709551615");
}

#[test]
fn signed_rendering() {
    assert_eq!(i64_to_string(0), "0");
    assert_eq!(i64_to_string(42), "42");
    assert_eq!(i64_to_string(-1), "-1");
    assert_eq!(i64_to_string(i64::MAX), "9223372036854775807");
    assert_eq!(i64_to_string(i64::MIN), "-9223372036854775808");
}

#[test]
fn space_padding() {
    assert_eq!(spaces(0), "");
    assert_eq!(spaces(3), "   ");
}

#[test]
fn interned_string_round_trip() {
    let e = eco_from_str("hello");
    assert_eq!(eco_to_string(&e), "hello");
    assert_eq!(e.as_str(), "hello");
}
