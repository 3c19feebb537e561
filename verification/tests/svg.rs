use actool::svg::{parse_svg_dimensions, read_whole_number, size_of_matches};

#[test]
fn parse_width_height() {
    let svg = br#"<svg xmlns="http://www.w3.org/2000/svg" width="64" height="48" viewBox="0 0 64 48"></svg>"#;
    assert_eq!(parse_svg_dimensions(svg), (64, 48));
}

#[test]
fn parse_from_viewbox() {
    let svg = br#"<svg xmlns="http://www.w3.org/2000/svg" viewBox="0 0 32 32"></svg>"#;
    assert_eq!(parse_svg_dimensions(svg), (32, 32));
}

#[test]
fn parse_fractional_width() {
    let svg = br#"<svg width="10.5" height="20.75" viewBox="0 0 10 20"></svg>"#;
    assert_eq!(parse_svg_dimensions(svg), (10, 20));
}

#[test]
fn parse_missing() {
    let svg = br#"<svg></svg>"#;
    assert_eq!(parse_svg_dimensions(svg), (0, 0));
}

#[test]
fn text_that_is_not_unicode_is_read() {
    let mut svg = b"<svg width=\"7\" height=\"9\">".to_vec();
    svg.push(0xff);
    assert_eq!(parse_svg_dimensions(&svg), (7, 9));
}

#[test]
fn numbers_are_cut_off() {
    for text in ["10.999", "7", "0.5", "99999999999", "123456.5", "16777217"] {
        let expected = text.parse::<f64>().unwrap() as u32;
        assert_eq!(read_whole_number(text), expected, "{text}");
    }
}

#[test]
fn sizes_come_from_matches() {
    let group = |s: &str| Some(vec![Some(String::new()), Some(s.to_string())]);
    assert_eq!(size_of_matches(group("12"), group("34.5"), None), (12, 34));
    assert_eq!(size_of_matches(None, None, None), (0, 0));
    let view = Some(vec![Some(String::new()), Some("5".to_string()), Some("6".to_string())]);
    assert_eq!(size_of_matches(None, None, view), (5, 6));
}
