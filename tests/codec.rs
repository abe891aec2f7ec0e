use cos_upload::codec::{i64_decimal, u64_decimal};
use cos_upload::{hmac_sha1, sha1_digest};

#[test]
fn unsigned_decimal_digits() {
    assert_eq!(u64_decimal(0), "0");
    assert_eq!(u64_decimal(7), "7");
    assert_eq!(u64_decimal(10), "10");
    assert_eq!(u64_decimal(5242880), "5242880");
    assert_eq!(u64_decimal(u64::MAX), "18446744073709551615");
}

#[test]
fn signed_decimal_digits() {
    assert_eq!(i64_decimal(0), "0");
    assert_eq!(i64_decimal(-5), "-5");
    assert_eq!(i64_decimal(1700003600), "1700003600");
    assert_eq!(i64_decimal(i64::MAX), "9223372036854775807");
    assert_eq!(i64_decimal(i64::MIN), "-9223372036854775808");
}

#[test]
fn digests_are_forty_lowercase_hex_digits() {
    for d in [hmac_sha1("k", "m"), sha1_digest("m"), hmac_sha1("", "")] {
        assert_eq!(d.len(), 40);
        assert!(d.chars().all(|c| c.is_ascii_digit() || ('a'..='f').contains(&c)));
    }
}
