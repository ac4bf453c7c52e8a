use yamcrs::glyph::load_digit;
use yamcrs::theme::{load_theme, load_themes};

#[test]
fn glyph_from_digit_file() {
    // "A" is one byte, 0x41; standard base64 with padding encodes it as "QQ==".
    let r = load_digit("0.png", &vec![b'A']);
    let (d, uri) = r.expect("a digit glyph");
    assert_eq!(d, 0);
    assert_eq!(uri, "data:image/png;base64,QQ==");
}

#[test]
fn glyph_encodes_bytes_not_argument() {
    let r = load_digit("3.gif", &vec![1, 2, 3]);
    let (d, uri) = r.expect("a digit glyph");
    assert_eq!(d, 3);
    assert_eq!(uri, "data:image/gif;base64,AQID");
}

#[test]
fn glyph_digit_is_stem_lead() {
    let r = load_digit("7counter.jpeg", &vec![b'x']);
    let (d, uri) = r.expect("a digit glyph");
    assert_eq!(d, 7);
    assert_eq!(uri, "data:image/jpeg;base64,eA==");
}

#[test]
fn glyph_unknown_extension_is_generic_binary() {
    let (_, uri) = load_digit("9.bin", &vec![b'A']).expect("a digit glyph");
    assert_eq!(uri, "data:application/octet-stream;base64,QQ==");
}

#[test]
fn no_glyph_without_leading_digit() {
    assert!(load_digit("a.png", &vec![1]).is_none());
    assert!(load_digit("x7.png", &vec![1]).is_none());
}

#[test]
fn no_glyph_without_extension() {
    assert!(load_digit("7", &vec![1]).is_none());
    assert!(load_digit(".png", &vec![1]).is_none());
}

#[test]
fn theme_indexes_distinct_glyphs() {
    let files = vec![
        ("0.png".to_string(), vec![b'A']),
        ("1.png".to_string(), vec![b'B']),
    ];
    let t = load_theme(&files).expect("a theme");
    assert_eq!(t.uris.len(), 2);
    assert_eq!(t.digits[0], Some(0));
    assert_eq!(t.digits[1], Some(1));
    assert_eq!(t.digits[2], None);
}

#[test]
fn theme_deduplicates_identical_bytes() {
    let files = vec![
        ("0.png".to_string(), b"same".to_vec()),
        ("1.png".to_string(), b"same".to_vec()),
    ];
    let t = load_theme(&files).expect("a theme");
    assert_eq!(t.uris.len(), 1);
    assert_eq!(t.digits[0], Some(0));
    assert_eq!(t.digits[1], Some(0));
}

#[test]
fn theme_same_bytes_different_mime_not_deduplicated() {
    let files = vec![
        ("0.png".to_string(), b"same".to_vec()),
        ("1.gif".to_string(), b"same".to_vec()),
    ];
    let t = load_theme(&files).expect("a theme");
    assert_eq!(t.uris.len(), 2);
}

#[test]
fn theme_later_file_wins_a_digit() {
    let files = vec![
        ("1a.png".to_string(), vec![b'A']),
        ("1b.png".to_string(), vec![b'B']),
    ];
    let t = load_theme(&files).expect("a theme");
    assert_eq!(t.digits[1], Some(1));
}

#[test]
fn theme_with_no_glyphs_is_dropped() {
    let files = vec![
        ("a.png".to_string(), vec![1]),
        ("readme".to_string(), vec![2]),
    ];
    assert!(load_theme(&files).is_none());
}

#[test]
fn registry_keeps_only_themes_with_glyphs() {
    let dirs = vec![
        ("good".to_string(), vec![("0.png".to_string(), vec![b'A'])]),
        ("empty".to_string(), vec![("x.png".to_string(), vec![b'B'])]),
    ];
    let r = load_themes(&dirs);
    assert!(r.get("good").is_some());
    assert!(r.get("empty").is_none());
}

#[test]
fn registry_resolution_order() {
    let dirs = vec![
        ("first".to_string(), vec![("0.png".to_string(), vec![b'A'])]),
        ("second".to_string(), vec![("1.png".to_string(), vec![b'B'])]),
    ];
    let r = load_themes(&dirs);
    // The requested key wins when registered.
    let t = r.resolve(Some("second"), "first").expect("a theme");
    assert_eq!(t.digits[1], Some(0));
    // An unknown key falls back to the default.
    let t = r.resolve(Some("nosuch"), "second").expect("a theme");
    assert_eq!(t.digits[1], Some(0));
    // An unknown default falls back to the first registered theme.
    let t = r.resolve(Some("nosuch"), "nosuch").expect("a theme");
    assert_eq!(t.digits[0], Some(0));
}
