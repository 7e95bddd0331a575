use rhwp::ooxml_chart::parser::{parse_chart_events, parse_chart_xml, ChartData, XmlEvent};
use rhwp::ooxml_chart::OoxmlChartType;

const BAR_XML: &str = r#"<?xml version="1.0"?>
<c:chartSpace xmlns:c="x" xmlns:a="y">
<c:chart>
  <c:title><c:tx><c:rich><a:p><a:r><a:t>Title A</a:t></a:r></a:p></c:rich></c:tx></c:title>
  <c:plotArea>
    <c:barChart>
      <c:barDir val="col"/>
      <c:ser>
        <c:tx><c:strRef><c:strCache><c:pt idx="0"><c:v>Q1</c:v></c:pt></c:strCache></c:strRef></c:tx>
        <c:cat><c:strRef><c:strCache>
          <c:pt idx="0"><c:v>Seoul</c:v></c:pt>
          <c:pt idx="1"><c:v>Busan</c:v></c:pt>
        </c:strCache></c:strRef></c:cat>
        <c:val><c:numRef><c:numCache>
          <c:pt idx="0"><c:v>100</c:v></c:pt>
          <c:pt idx="1"><c:v>80</c:v></c:pt>
        </c:numCache></c:numRef></c:val>
      </c:ser>
      <c:ser>
        <c:tx><c:strRef><c:strCache><c:pt idx="0"><c:v>Q2</c:v></c:pt></c:strCache></c:strRef></c:tx>
        <c:val><c:numRef><c:numCache>
          <c:pt idx="0"><c:v>120</c:v></c:pt>
          <c:pt idx="1"><c:v>90</c:v></c:pt>
        </c:numCache></c:numRef></c:val>
      </c:ser>
    </c:barChart>
  </c:plotArea>
</c:chart>
</c:chartSpace>"#;

/// The values of a series as numbers (text that is no number counts as 0).
fn numbers(c: &ChartData, i: usize) -> Vec<f64> {
    c.series[i]
        .values
        .iter()
        .map(|v| v.parse::<f64>().unwrap_or(0.0))
        .collect()
}

#[test]
fn test_parse_bar_chart() {
    let c = parse_chart_xml(BAR_XML.as_bytes()).expect("parse OK");
    assert_eq!(c.chart_type, OoxmlChartType::Column);
    assert_eq!(c.title.as_deref(), Some("Title A"));
    assert_eq!(c.series.len(), 2);
    assert_eq!(c.series[0].name, "Q1");
    assert_eq!(numbers(&c, 0), vec![100.0, 80.0]);
    assert_eq!(c.series[1].name, "Q2");
    assert_eq!(numbers(&c, 1), vec![120.0, 90.0]);
    assert_eq!(c.categories, vec!["Seoul", "Busan"]);
}

#[test]
fn test_parse_horizontal_bar() {
    let xml = br#"<?xml version="1.0"?><c:chartSpace xmlns:c="x" xmlns:a="y"><c:chart><c:plotArea><c:barChart><c:barDir val="bar"/><c:ser><c:val><c:numCache><c:pt idx="0"><c:v>5</c:v></c:pt></c:numCache></c:val></c:ser></c:barChart></c:plotArea></c:chart></c:chartSpace>"#;
    let c = parse_chart_xml(xml).expect("parse OK");
    assert_eq!(c.chart_type, OoxmlChartType::Bar);
}

#[test]
fn test_parse_pie_chart() {
    let xml = br#"<?xml version="1.0"?><c:chartSpace xmlns:c="x" xmlns:a="y"><c:chart><c:plotArea><c:pieChart><c:ser><c:val><c:numCache><c:pt idx="0"><c:v>30</c:v></c:pt><c:pt idx="1"><c:v>70</c:v></c:pt></c:numCache></c:val></c:ser></c:pieChart></c:plotArea></c:chart></c:chartSpace>"#;
    let c = parse_chart_xml(xml).expect("parse OK");
    assert_eq!(c.chart_type, OoxmlChartType::Pie);
    assert_eq!(numbers(&c, 0), vec![30.0, 70.0]);
}

#[test]
fn test_parse_malformed() {
    assert!(parse_chart_xml(b"not xml").is_none());
}

fn start(name: &str) -> XmlEvent {
    XmlEvent::Start(name.as_bytes().to_vec(), vec![], false)
}

fn end(name: &str) -> XmlEvent {
    XmlEvent::End(name.as_bytes().to_vec())
}

fn text(t: &str) -> XmlEvent {
    XmlEvent::Text(Some(t.to_string()))
}

#[test]
fn line_chart_from_tokens() {
    let events = vec![
        start("lineChart"),
        start("ser"),
        start("tx"), start("v"), text("S"), end("v"), end("tx"),
        start("val"), start("v"), text("1.5"), end("v"), start("v"), text("x"), end("v"), end("val"),
        end("ser"),
        end("lineChart"),
        XmlEvent::Eof,
    ];
    let c = parse_chart_events(&events).expect("a chart");
    assert_eq!(c.chart_type, OoxmlChartType::Line);
    assert_eq!(c.series.len(), 1);
    assert_eq!(c.series[0].name, "S");
    assert_eq!(c.series[0].values, vec!["1.5", "x"]);
    assert!(c.title.is_none());
}

#[test]
fn categories_come_from_the_first_series_only() {
    let events = vec![
        start("ser"), start("cat"), start("v"), text("a"), end("v"), end("cat"), end("ser"),
        start("ser"), start("cat"), start("v"), text("b"), end("v"), end("cat"), end("ser"),
        XmlEvent::Eof,
    ];
    let c = parse_chart_events(&events).expect("a chart");
    assert_eq!(c.categories, vec!["a"]);
    assert_eq!(c.series.len(), 2);
    assert_eq!(c.chart_type, OoxmlChartType::Unknown);
}

#[test]
fn title_runs_are_joined() {
    let events = vec![
        start("title"), start("t"), text("Ab"), end("t"), start("t"), text("cd"), end("t"), end("title"),
        XmlEvent::Eof,
    ];
    let c = parse_chart_events(&events).expect("a chart with a title");
    assert_eq!(c.title.as_deref(), Some("Abcd"));
}

#[test]
fn no_series_and_no_title_is_no_chart() {
    assert!(parse_chart_events(&vec![start("barChart"), end("barChart"), XmlEvent::Eof]).is_none());
}

#[test]
fn errors_and_missing_end_are_no_chart() {
    let with_error = vec![start("title"), start("t"), text("A"), end("t"), XmlEvent::Error];
    assert!(parse_chart_events(&with_error).is_none());
    let unterminated = vec![start("title"), start("t"), text("A"), end("t"), end("title")];
    assert!(parse_chart_events(&unterminated).is_none());
}

#[test]
fn bar_chart_without_direction_is_vertical() {
    let events = vec![
        start("barChart"), start("ser"), end("ser"), end("barChart"), XmlEvent::Eof,
    ];
    let c = parse_chart_events(&events).expect("a chart");
    assert_eq!(c.chart_type, OoxmlChartType::Column);
}
