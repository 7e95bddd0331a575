use rhwp::renderer::svg_fragment::{
    decode_base64_data_url, find_svg_attr_value, try_parse_single_image_data_url,
};

#[test]
fn find_attr_basic() {
    let s = r#"<image x="1.0" y="2.0" width="3.0" href="data:foo" />"#;
    assert_eq!(find_svg_attr_value(s, "x"), Some("1.0"));
    assert_eq!(find_svg_attr_value(s, "y"), Some("2.0"));
    assert_eq!(find_svg_attr_value(s, "width"), Some("3.0"));
    assert_eq!(find_svg_attr_value(s, "href"), Some("data:foo"));
}

#[test]
fn find_attr_word_boundary() {
    // `href` 검색이 `xlink:href` 를 잘못 매칭하지 않아야 함
    let s = r#"<image xlink:href="data:A" href="data:B"/>"#;
    assert_eq!(find_svg_attr_value(s, "href"), Some("data:B"));
    assert_eq!(find_svg_attr_value(s, "xlink:href"), Some("data:A"));
}

#[test]
fn find_attr_missing() {
    let s = r#"<image x="1"/>"#;
    assert_eq!(find_svg_attr_value(s, "nope"), None);
}

#[test]
fn parse_single_image_xlink_href() {
    // shape_layout.rs:1059-1062 가 만드는 실제 형식
    let frag = r#"<image x="10.50" y="20.75" width="100.00" height="50.00" preserveAspectRatio="xMidYMid meet" xlink:href="data:image/png;base64,AAAA" href="data:image/png;base64,AAAA"/>"#;
    assert_eq!(
        try_parse_single_image_data_url(frag),
        Some("data:image/png;base64,AAAA")
    );
}

#[test]
fn parse_single_image_href_only() {
    let frag = r#"<image x="0" y="0" width="10" height="10" href="data:image/jpeg;base64,ZZZ"/>"#;
    assert_eq!(
        try_parse_single_image_data_url(frag),
        Some("data:image/jpeg;base64,ZZZ")
    );
}

#[test]
fn parse_single_image_leading_whitespace() {
    let frag = "\n  <image href=\"data:x\"/>\n  ";
    assert_eq!(try_parse_single_image_data_url(frag), Some("data:x"));
}

#[test]
fn parse_single_image_rejects_group() {
    // EMF/OOXML 복합 SVG 는 A 경로로 빠지지 않아야 함
    let g_emf = r#"<g transform="matrix(1,0,0,1,0,0)"><rect x="0" y="0" width="10" height="10"/></g>"#;
    assert_eq!(try_parse_single_image_data_url(g_emf), None);

    let g_chart = r#"<g class="hwp-ooxml-chart"><rect/><text>..</text></g>"#;
    assert_eq!(try_parse_single_image_data_url(g_chart), None);
}

#[test]
fn parse_single_image_rejects_non_data_href() {
    let frag = r#"<image href="http://example.com/a.png"/>"#;
    assert_eq!(try_parse_single_image_data_url(frag), None);
}

#[test]
fn parse_single_image_rejects_missing_href() {
    let frag = r#"<image x="0" y="0" width="10" height="10"/>"#;
    assert_eq!(try_parse_single_image_data_url(frag), None);
}

#[test]
fn decode_data_url_png() {
    // PNG 매직 8바이트
    let url = "data:image/png;base64,iVBORw0KGgo=";
    let (mime, bytes) = decode_base64_data_url(url).expect("decode");
    assert_eq!(mime, "image/png");
    assert_eq!(bytes, vec![0x89, 0x50, 0x4e, 0x47, 0x0d, 0x0a, 0x1a, 0x0a]);
}

#[test]
fn decode_data_url_rejects_non_base64() {
    let url = "data:text/plain,hello";
    assert_eq!(decode_base64_data_url(url), None);
}

#[test]
fn decode_data_url_rejects_malformed() {
    assert_eq!(decode_base64_data_url("not a data url"), None);
    assert_eq!(decode_base64_data_url("data:image/png;base64"), None); // 콤마 없음
    assert_eq!(
        decode_base64_data_url("data:image/png;base64,!!!invalid!!!"),
        None
    );
}

#[test]
fn find_attr_at_start_of_text() {
    assert_eq!(find_svg_attr_value(r#"x="1""#, "x"), Some("1"));
    assert_eq!(find_svg_attr_value(r#"yx="1""#, "x"), None);
}
