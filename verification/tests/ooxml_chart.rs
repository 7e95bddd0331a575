use rhwp::ooxml_chart::renderer::{color_hex, palette};
use rhwp::ooxml_chart::OoxmlChartType;

#[test]
fn test_color_hex() {
    assert_eq!(color_hex(0xFFFF00FF), "#ff00ff");
}

#[test]
fn color_hex_keeps_leading_zeros() {
    assert_eq!(color_hex(0x00000A0B), "#000a0b");
}

#[test]
fn palette_cycles_through_eight_colours() {
    assert_eq!(palette(0), 0xFF4A90E2);
    assert_eq!(palette(7), 0xFF50E3C2);
    assert_eq!(palette(8), palette(0));
    assert_eq!(palette(13), palette(5));
}

#[test]
fn chart_type_labels() {
    assert_eq!(OoxmlChartType::Column.label(), "세로 막대");
    assert_eq!(OoxmlChartType::Bar.label(), "가로 막대");
    assert_eq!(OoxmlChartType::Line.label(), "꺾은선");
    assert_eq!(OoxmlChartType::Pie.label(), "원형");
    assert_eq!(OoxmlChartType::default().label(), "미지원");
}

use rhwp::ooxml_chart::renderer::{series_color, xml_escape};

#[test]
fn xml_escape_replaces_markup_characters() {
    assert_eq!(xml_escape("a<b>&\"c'"), "a&lt;b&gt;&amp;&quot;c&apos;");
    assert_eq!(xml_escape("차트 (원형)"), "차트 (원형)");
    assert_eq!(xml_escape(""), "");
}

#[test]
fn series_color_prefers_own_colour() {
    assert_eq!(series_color(Some(0x00123456), 3), "#123456");
    assert_eq!(series_color(None, 1), "#f5a623");
    assert_eq!(series_color(None, 9), "#f5a623");
}
