use yamcrs::theme::load_theme;
use yamcrs::render::{render, render_svg};

fn two_glyph_theme() -> yamcrs::theme::Theme {
    let files = vec![
        ("0.png".to_string(), vec![b'A']),
        ("1.png".to_string(), vec![b'B']),
    ];
    load_theme(&files).expect("a theme")
}

#[test]
fn render_places_each_digit_with_a_glyph() {
    let t = two_glyph_theme();
    let img = render(&t, 1);
    // "0000001": six placements of glyph 0, then one of glyph 1.
    assert_eq!(
        img.placements,
        vec![(0, 0), (45, 0), (90, 0), (135, 0), (180, 0), (225, 0), (270, 1)]
    );
    // Each used glyph is defined once, in first-use order.
    assert_eq!(img.defs, vec![0, 1]);
}

#[test]
fn render_skips_digits_without_a_glyph() {
    let t = two_glyph_theme();
    // "0000012": position 5 holds the digit 1, position 6 the digit 2, which
    // has no glyph and is silently omitted.
    let img = render(&t, 12);
    assert_eq!(
        img.placements,
        vec![(0, 0), (45, 0), (90, 0), (135, 0), (180, 0), (225, 1)]
    );
    assert_eq!(img.defs, vec![0, 1]);
}

#[test]
fn render_shared_definition_placed_independently() {
    let files = vec![
        ("0.png".to_string(), b"same".to_vec()),
        ("1.png".to_string(), b"same".to_vec()),
    ];
    let t = load_theme(&files).expect("a theme");
    let img = render(&t, 1);
    // Both digits share one definition, each position still gets a placement.
    assert_eq!(img.defs, vec![0]);
    assert_eq!(img.placements.len(), 7);
}

#[test]
fn render_is_deterministic() {
    let t = two_glyph_theme();
    let a = render_svg(&t, 10101);
    let b = render_svg(&t, 10101);
    assert_eq!(a, b);
}

#[test]
fn render_svg_document_exact() {
    let t = two_glyph_theme();
    let svg = render_svg(&t, 1);
    let uri0 = "data:image/png;base64,QQ==";
    let uri1 = "data:image/png;base64,Qg==";
    let mut expected = String::new();
    expected.push_str(
        "<svg xmlns=\"http://www.w3.org/2000/svg\" width=\"315\" height=\"100\"><defs>",
    );
    expected.push_str(&format!(
        "<image id=\"i0\" width=\"45\" height=\"100\" href=\"{}\"/>",
        uri0
    ));
    expected.push_str(&format!(
        "<image id=\"i1\" width=\"45\" height=\"100\" href=\"{}\"/>",
        uri1
    ));
    expected.push_str("</defs>");
    for pos in 0..6 {
        expected.push_str(&format!(
            "<use href=\"#i0\" x=\"{}\" y=\"0\" width=\"45\" height=\"100\"/>",
            pos * 45
        ));
    }
    expected.push_str("<use href=\"#i1\" x=\"270\" y=\"0\" width=\"45\" height=\"100\"/>");
    expected.push_str("</svg>");
    assert_eq!(svg, expected);
}

#[test]
fn render_value_with_no_glyphs_still_succeeds() {
    let files = vec![("5.png".to_string(), vec![b'A'])];
    let t = load_theme(&files).expect("a theme");
    // "0000001" uses no digit the theme has: no definitions, no placements.
    let img = render(&t, 1);
    assert_eq!(img.defs.len(), 0);
    assert_eq!(img.placements.len(), 0);
    let svg = render_svg(&t, 1);
    assert_eq!(
        svg,
        "<svg xmlns=\"http://www.w3.org/2000/svg\" width=\"315\" height=\"100\"><defs></defs></svg>"
    );
}
