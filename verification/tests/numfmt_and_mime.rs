use yamcrs::numfmt::{to_decimal, pad7, digits_of};
use yamcrs::mime::mime_for;

#[test]
fn decimal_of_zero() {
    assert_eq!(to_decimal(0), "0");
}

#[test]
fn decimal_of_small_and_large() {
    assert_eq!(to_decimal(7), "7");
    assert_eq!(to_decimal(42), "42");
    assert_eq!(to_decimal(1234567890123), "1234567890123");
    assert_eq!(to_decimal(u64::MAX), "18446744073709551615");
}

#[test]
fn digits_of_value() {
    assert_eq!(digits_of(0), vec![0]);
    assert_eq!(digits_of(907), vec![9, 0, 7]);
}

#[test]
fn padding_to_seven_slots() {
    assert_eq!(pad7(1), vec![0, 0, 0, 0, 0, 0, 1]);
    assert_eq!(pad7(0), vec![0, 0, 0, 0, 0, 0, 0]);
    assert_eq!(pad7(9999999), vec![9, 9, 9, 9, 9, 9, 9]);
}

#[test]
fn padding_grows_past_seven_slots() {
    assert_eq!(pad7(12345678), vec![1, 2, 3, 4, 5, 6, 7, 8]);
}

#[test]
fn mime_table() {
    assert_eq!(mime_for("png"), "image/png");
    assert_eq!(mime_for("gif"), "image/gif");
    assert_eq!(mime_for("jpg"), "image/jpeg");
    assert_eq!(mime_for("jpeg"), "image/jpeg");
    assert_eq!(mime_for("bmp"), "application/octet-stream");
    assert_eq!(mime_for(""), "application/octet-stream");
}

#[test]
fn mime_ignores_ascii_case() {
    assert_eq!(mime_for("PNG"), "image/png");
    assert_eq!(mime_for("PnG"), "image/png");
    assert_eq!(mime_for("JPEG"), "image/jpeg");
    assert_eq!(mime_for("Gif"), "image/gif");
}
