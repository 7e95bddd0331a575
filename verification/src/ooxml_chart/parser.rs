//! The reader of DrawingML chart XML. It is lenient: unknown elements are
//! skipped and only what the charts draw is kept — the chart kind (bar
//! direction included), the title, the series with their names and values,
//! and the categories (taken from the first series). Values are kept as
//! written; turning them into numbers is the renderer's business.
//!
//! The XML is tokenised by quick_xml; what is done with each token is a
//! step of the state machine below.

use vstd::prelude::*;
use quick_xml::events::Event::{Start, Empty, End, Text, Eof};
use quick_xml::Reader;
use super::OoxmlChartType;

verus! {

// ───────────────────────────── Tokens ─────────────────────────────

/// `quick_xml::Reader`.
#[verifier::external_type_specification]
#[verifier::external_body]
#[verifier::reject_recursive_types(R)]
pub struct ExReader<R>(Reader<R>);

/// A token of the XML, as the state machine reads it.
#[derive(Debug)]
pub enum XmlEvent {
    /// A start tag, or an empty-element tag (the flag): its local name and
    /// its attributes (key and raw value; `None` for one that could not be
    /// read).
    Start(Vec<u8>, Vec<Option<(Vec<u8>, Vec<u8>)>>, bool),
    /// An end tag: its local name.
    End(Vec<u8>),
    /// Character data, decoded (`None` when it could not be).
    Text(Option<String>),
    /// The end of the document.
    Eof,
    /// Malformed XML.
    Error,
    /// Anything else (comments, declarations, references, ...).
    Other,
}

/// The tokens quick_xml gives for `xml`, read from the start with text
/// trimmed, each as `next_event` turns it into an `XmlEvent`: every token
/// up to and including the first end of the document or error.
pub uninterp spec fn quick_xml_events(xml: Seq<u8>) -> Seq<XmlEvent>;

/// The tokens a quick_xml reader over a byte slice has still to give, each
/// as `next_event` turns it into an `XmlEvent`: every token up to and
/// including the first end of the document or error.
pub uninterp spec fn pending_events(reader: Reader<&[u8]>) -> Seq<XmlEvent>;

/// The end of the document or an error: the token after which quick_xml has
/// nothing more to give.
pub open spec fn is_last_event(e: XmlEvent) -> bool {
    e is Eof || e is Error
}

/// `quick_xml::Reader::from_reader` over the bytes, with `trim_text(true)`
/// set on its configuration before anything is read. Its tokens are
/// `quick_xml_events(xml)`: a run of tokens that are neither the end nor an
/// error, closed by the end or an error (quick_xml reads a byte slice to its
/// end or to an error).
#[verifier::external_body]
fn trimmed_reader<'a>(xml: &'a [u8]) -> (r: Reader<&'a [u8]>)
    ensures
        pending_events(r) == quick_xml_events(xml@),
        pending_events(r).len() > 0 && is_last_event(pending_events(r).last()) && forall|i: int|
            0 <= i < pending_events(r).len() - 1 ==> !is_last_event(#[trigger] pending_events(r)[i]),
{
    let mut reader = Reader::from_reader(xml);
    reader.config_mut().trim_text(true);
    reader
}

/// `quick_xml::Reader::read_event_into`: the reader's next token, converted;
/// after a token that is neither the end nor an error, the reader is left
/// with the tokens after it (what it gives after the end or an error is left
/// unsaid). The token does not depend on what `buf` held.
#[verifier::external_body]
fn next_event(reader: &mut Reader<&[u8]>, buf: &mut Vec<u8>) -> (r: XmlEvent)
    ensures
        pending_events(*old(reader)).len() > 0 ==> r == pending_events(*old(reader))[0] && (!is_last_event(r)
            ==> pending_events(*final(reader)) == pending_events(*old(reader)).drop_first()),
{
    let ev = reader.read_event_into(buf);
    let empty = matches!(ev, Ok(Empty(_)));
    match ev {
        Ok(Start(e) | Empty(e)) => XmlEvent::Start(
            e.local_name().as_ref().to_vec(),
            e.attributes().map(|a| a.ok().map(|a| (a.key.0.to_vec(), a.value.to_vec()))).collect(),
            empty,
        ),
        Ok(End(e)) => XmlEvent::End(e.local_name().as_ref().to_vec()),
        Ok(Text(t)) => XmlEvent::Text(t.decode().ok().map(String::from)),
        Ok(Eof) => XmlEvent::Eof,
        Ok(_) => XmlEvent::Other,
        Err(_) => XmlEvent::Error,
    }
}

// ───────────────────────────── The chart as read ─────────────────────────────

/// A data series as read: its name and its values as written.
#[derive(Debug)]
pub struct SeriesData {
    pub name: String,
    pub values: Vec<String>,
}

/// A chart as read, values as written.
#[derive(Debug)]
pub struct ChartData {
    pub chart_type: OoxmlChartType,
    pub title: Option<String>,
    pub series: Vec<SeriesData>,
    pub categories: Vec<String>,
}

/// The direction of the bars (`<c:barDir val="bar"|"col"/>`).
#[derive(Debug, Clone, Copy, PartialEq, Eq)]
pub enum BarDir {
    Bar,
    Col,
}

#[verifier::ext_equal]
pub struct SeriesView {
    pub name: Seq<char>,
    pub values: Seq<Seq<char>>,
}

#[verifier::ext_equal]
pub struct ChartView {
    pub chart_type: OoxmlChartType,
    pub title: Option<Seq<char>>,
    pub series: Seq<SeriesView>,
    pub categories: Seq<Seq<char>>,
}

/// Where the reader is: the series being read, the text being collected,
/// which of `tx` (series name), `cat`, `val`, `title`, `v` and `t` it is
/// inside, and the bar direction seen.
#[verifier::ext_equal]
pub struct ReadState {
    pub cur_series: Option<SeriesView>,
    pub text: Seq<char>,
    pub in_tx: bool,
    pub in_cat: bool,
    pub in_val: bool,
    pub in_title: bool,
    pub in_v: bool,
    pub in_a_t: bool,
    pub bar_dir: Option<BarDir>,
}

pub open spec fn strings_view(v: Seq<String>) -> Seq<Seq<char>> {
    v.map_values(|x: String| x@)
}

pub open spec fn series_view(s: SeriesData) -> SeriesView {
    SeriesView { name: s.name@, values: strings_view(s.values@) }
}

pub open spec fn chart_view(c: ChartData) -> ChartView {
    ChartView {
        chart_type: c.chart_type,
        title: match c.title {
            Some(t) => Some(t@),
            None => None,
        },
        series: c.series@.map_values(|x: SeriesData| series_view(x)),
        categories: strings_view(c.categories@),
    }
}

/// The names this reader looks for.
#[derive(Debug, Clone, Copy, PartialEq, Eq)]
pub enum Tag {
    BarChart,
    LineChart,
    PieChart,
    BarDir,
    Ser,
    Tx,
    Cat,
    Val,
    Title,
    V,
    T,
    /// The `barDir` value `bar`.
    BarWord,
    /// The `barDir` value `col`.
    ColWord,
}

/// The bytes of a name.
pub open spec fn tag(t: Tag) -> Seq<u8> {
    match t {
        Tag::BarChart => seq![98u8, 97, 114, 67, 104, 97, 114, 116],
        Tag::LineChart => seq![108u8, 105, 110, 101, 67, 104, 97, 114, 116],
        Tag::PieChart => seq![112u8, 105, 101, 67, 104, 97, 114, 116],
        Tag::BarDir => seq![98u8, 97, 114, 68, 105, 114],
        Tag::Ser => seq![115u8, 101, 114],
        Tag::Tx => seq![116u8, 120],
        Tag::Cat => seq![99u8, 97, 116],
        Tag::Val => seq![118u8, 97, 108],
        Tag::Title => seq![116u8, 105, 116, 108, 101],
        Tag::V => seq![118u8],
        Tag::T => seq![116u8],
        Tag::BarWord => seq![98u8, 97, 114],
        Tag::ColWord => seq![99u8, 111, 108],
    }
}

/// The raw value of the first readable attribute named `val`.
pub open spec fn val_attr(attrs: Seq<Option<(Vec<u8>, Vec<u8>)>>) -> Option<Seq<u8>>
    decreases attrs.len(),
{
    if attrs.len() == 0 {
        None
    } else {
        match attrs[0] {
            Some(p) => if p.0@ == tag(Tag::Val) {
                Some(p.1@)
            } else {
                val_attr(attrs.drop_first())
            },
            None => val_attr(attrs.drop_first()),
        }
    }
}

/// What a start tag does: a chart element sets the kind, `barDir` the bar
/// direction, `ser` starts a series, `tx`/`cat`/`val`/`title` are entered,
/// and `v`/`t` start collecting text.
pub open spec fn start_step(c: ChartView, s: ReadState, name: Seq<u8>, attrs: Seq<Option<(Vec<u8>, Vec<u8>)>>) -> (ChartView, ReadState) {
    if name == tag(Tag::BarChart) {
        (ChartView { chart_type: OoxmlChartType::Column, ..c }, s)
    } else if name == tag(Tag::LineChart) {
        (ChartView { chart_type: OoxmlChartType::Line, ..c }, s)
    } else if name == tag(Tag::PieChart) {
        (ChartView { chart_type: OoxmlChartType::Pie, ..c }, s)
    } else if name == tag(Tag::BarDir) {
        match val_attr(attrs) {
            Some(v) => (c, ReadState {
                bar_dir: if v == tag(Tag::BarWord) {
                    Some(BarDir::Bar)
                } else if v == tag(Tag::ColWord) {
                    Some(BarDir::Col)
                } else {
                    None
                },
                ..s
            }),
            None => (c, s),
        }
    } else if name == tag(Tag::Ser) {
        (c, ReadState { cur_series: Some(SeriesView { name: seq![], values: seq![] }), ..s })
    } else if name == tag(Tag::Tx) {
        (c, ReadState { in_tx: true, ..s })
    } else if name == tag(Tag::Cat) {
        (c, ReadState { in_cat: true, ..s })
    } else if name == tag(Tag::Val) {
        (c, ReadState { in_val: true, ..s })
    } else if name == tag(Tag::Title) {
        (c, ReadState { in_title: true, ..s })
    } else if name == tag(Tag::V) {
        (c, ReadState { in_v: true, text: seq![], ..s })
    } else if name == tag(Tag::T) {
        (c, ReadState { in_a_t: true, text: seq![], ..s })
    } else {
        (c, s)
    }
}

/// What the end of a `v` does with the collected text: inside `tx` it names
/// the series (when it has no name yet), inside `cat` it is a category (while
/// no series is finished), inside `val` it is the series' next value.
pub open spec fn end_v_step(c: ChartView, s: ReadState) -> (ChartView, ReadState) {
    let s1 = ReadState { in_v: false, text: seq![], ..s };
    match s.cur_series {
        Some(ser) => if s.in_tx {
            if ser.name.len() == 0 {
                (c, ReadState { cur_series: Some(SeriesView { name: s.text, ..ser }), ..s1 })
            } else {
                (c, s1)
            }
        } else if s.in_cat {
            if c.series.len() == 0 {
                (ChartView { categories: c.categories.push(s.text), ..c }, s1)
            } else {
                (c, s1)
            }
        } else if s.in_val {
            (c, ReadState { cur_series: Some(SeriesView { values: ser.values.push(s.text), ..ser }), ..s1 })
        } else {
            (c, s1)
        },
        None => (c, s1),
    }
}

/// What an end tag does: `v` as above; `t` adds non-empty collected text to
/// the title while inside `title`; `tx`/`cat`/`val`/`title` are left; `ser`
/// finishes the series.
pub open spec fn end_step(c: ChartView, s: ReadState, name: Seq<u8>) -> (ChartView, ReadState) {
    if name == tag(Tag::V) {
        end_v_step(c, s)
    } else if name == tag(Tag::T) {
        let s1 = ReadState { in_a_t: false, text: seq![], ..s };
        if s.in_title && s.text.len() > 0 {
            (ChartView {
                title: Some(match c.title {
                    Some(x) => x + s.text,
                    None => s.text,
                }),
                ..c
            }, s1)
        } else {
            (c, s1)
        }
    } else if name == tag(Tag::Tx) {
        (c, ReadState { in_tx: false, ..s })
    } else if name == tag(Tag::Cat) {
        (c, ReadState { in_cat: false, ..s })
    } else if name == tag(Tag::Val) {
        (c, ReadState { in_val: false, ..s })
    } else if name == tag(Tag::Title) {
        (c, ReadState { in_title: false, ..s })
    } else if name == tag(Tag::Ser) {
        match s.cur_series {
            Some(ser) => (ChartView { series: c.series.push(ser), ..c }, ReadState { cur_series: None, ..s }),
            None => (c, s),
        }
    } else {
        (c, s)
    }
}

/// Character data is collected while inside `v` or `t` (undecodable data
/// as nothing).
pub open spec fn text_step(c: ChartView, s: ReadState, t: Option<Seq<char>>) -> (ChartView, ReadState) {
    if s.in_v || s.in_a_t {
        (c, ReadState {
            text: s.text + match t {
                Some(x) => x,
                None => Seq::<char>::empty(),
            },
            ..s
        })
    } else {
        (c, s)
    }
}

/// The chart and reader state after the tokens from `i` on, up to the end of
/// the document; `None` for malformed XML, or when the tokens run out first.
pub open spec fn read_events(c: ChartView, s: ReadState, events: Seq<XmlEvent>, i: int) -> Option<(ChartView, ReadState)>
    decreases events.len() - i,
{
    if i < 0 || i >= events.len() {
        None
    } else {
        match events[i] {
            XmlEvent::Start(name, attrs, empty) => {
                let (c1, s1) = start_step(c, s, name@, attrs@);
                if empty {
                    let (c2, s2) = end_step(c1, s1, name@);
                    read_events(c2, s2, events, i + 1)
                } else {
                    read_events(c1, s1, events, i + 1)
                }
            },
            XmlEvent::End(name) => {
                let (c1, s1) = end_step(c, s, name@);
                read_events(c1, s1, events, i + 1)
            },
            XmlEvent::Text(t) => {
                let (c1, s1) = text_step(c, s, match t {
                    Some(x) => Some(x@),
                    None => None,
                });
                read_events(c1, s1, events, i + 1)
            },
            XmlEvent::Eof => Some((c, s)),
            XmlEvent::Error => None,
            XmlEvent::Other => read_events(c, s, events, i + 1),
        }
    }
}

/// The chart at the end of the document: none when it has neither a series
/// nor a title; a bar chart is horizontal when `barDir` said `bar`, else
/// vertical.
pub open spec fn finish(c: ChartView, s: ReadState) -> Option<ChartView> {
    if c.series.len() == 0 && c.title is None {
        None
    } else if c.chart_type == OoxmlChartType::Column || c.chart_type == OoxmlChartType::Bar {
        Some(ChartView {
            chart_type: if s.bar_dir == Some(BarDir::Bar) {
                OoxmlChartType::Bar
            } else {
                OoxmlChartType::Column
            },
            ..c
        })
    } else {
        Some(c)
    }
}

pub open spec fn empty_chart() -> ChartView {
    ChartView { chart_type: OoxmlChartType::Unknown, title: None, series: seq![], categories: seq![] }
}

pub open spec fn start_state() -> ReadState {
    ReadState {
        cur_series: None,
        text: seq![],
        in_tx: false,
        in_cat: false,
        in_val: false,
        in_title: false,
        in_v: false,
        in_a_t: false,
        bar_dir: None,
    }
}

/// The chart that the tokens describe.
pub open spec fn chart_of_events(events: Seq<XmlEvent>) -> Option<ChartView> {
    match read_events(empty_chart(), start_state(), events, 0) {
        Some((c, s)) => finish(c, s),
        None => None,
    }
}

// ───────────────────────────── The reader ─────────────────────────────

struct ParseState {
    cur_series: Option<SeriesData>,
    cur_text_buf: String,
    in_tx: bool,
    in_cat: bool,
    in_val: bool,
    in_chart_title: bool,
    in_v: bool,
    in_a_t: bool,
    bar_dir: Option<BarDir>,
}

spec fn state_view(st: ParseState) -> ReadState {
    ReadState {
        cur_series: match st.cur_series {
            Some(x) => Some(series_view(x)),
            None => None,
        },
        text: st.cur_text_buf@,
        in_tx: st.in_tx,
        in_cat: st.in_cat,
        in_val: st.in_val,
        in_title: st.in_chart_title,
        in_v: st.in_v,
        in_a_t: st.in_a_t,
        bar_dir: st.bar_dir,
    }
}

fn same_bytes(a: &[u8], b: &[u8]) -> (r: bool)
    ensures
        r == (a@ == b@),
{
    if a.len() != b.len() {
        return false;
    }
    let mut i: usize = 0;
    while i < a.len()
        invariant
            a@.len() == b@.len(),
            i <= a@.len(),
            forall|j: int| 0 <= j < i ==> a@[j] == b@[j],
        decreases a@.len() - i,
    {
        if a[i] != b[i] {
            return false;
        }
        i = i + 1;
    }
    assert(a@ =~= b@);
    true
}

fn tag_bytes(t: Tag) -> (r: &'static [u8])
    ensures
        r@ == tag(t),
{
    let b: &'static [u8] = match t {
        Tag::BarChart => &[98u8, 97, 114, 67, 104, 97, 114, 116],
        Tag::LineChart => &[108u8, 105, 110, 101, 67, 104, 97, 114, 116],
        Tag::PieChart => &[112u8, 105, 101, 67, 104, 97, 114, 116],
        Tag::BarDir => &[98u8, 97, 114, 68, 105, 114],
        Tag::Ser => &[115u8, 101, 114],
        Tag::Tx => &[116u8, 120],
        Tag::Cat => &[99u8, 97, 116],
        Tag::Val => &[118u8, 97, 108],
        Tag::Title => &[116u8, 105, 116, 108, 101],
        Tag::V => &[118u8],
        Tag::T => &[116u8],
        Tag::BarWord => &[98u8, 97, 114],
        Tag::ColWord => &[99u8, 111, 108],
    };
    assert(b@ =~= tag(t));
    b
}

fn is_tag(name: &[u8], t: Tag) -> (r: bool)
    ensures
        r == (name@ == tag(t)),
{
    same_bytes(name, tag_bytes(t))
}

fn val_attr_exec(attrs: &Vec<Option<(Vec<u8>, Vec<u8>)>>) -> (r: Option<&Vec<u8>>)
    ensures
        match r {
            Some(v) => val_attr(attrs@) == Some(v@),
            None => val_attr(attrs@) is None,
        },
{
    let n = attrs.len();
    let mut i: usize = 0;
    assert(attrs@.subrange(0, n as int) =~= attrs@);
    while i < n
        invariant
            n == attrs@.len(),
            i <= n,
            val_attr(attrs@) == val_attr(attrs@.subrange(i as int, n as int)),
        decreases n - i,
    {
        proof {
            assert(attrs@.subrange(i as int, n as int).drop_first() =~= attrs@.subrange(i + 1, n as int));
        }
        match &attrs[i] {
            Some(p) => {
                if is_tag(p.0.as_slice(), Tag::Val) {
                    return Some(&p.1);
                }
            },
            None => {},
        }
        i = i + 1;
    }
    None
}

fn handle_start(name: &[u8], attrs: &Vec<Option<(Vec<u8>, Vec<u8>)>>, chart: &mut ChartData, st: &mut ParseState)
    ensures
        (chart_view(*final(chart)), state_view(*final(st))) == start_step(
            chart_view(*old(chart)),
            state_view(*old(st)),
            name@,
            attrs@,
        ),
{
    if is_tag(name, Tag::BarChart) {
        chart.chart_type = OoxmlChartType::Column;
    } else if is_tag(name, Tag::LineChart) {
        chart.chart_type = OoxmlChartType::Line;
    } else if is_tag(name, Tag::PieChart) {
        chart.chart_type = OoxmlChartType::Pie;
    } else if is_tag(name, Tag::BarDir) {
        match val_attr_exec(attrs) {
            Some(v) => {
                st.bar_dir = if is_tag(v.as_slice(), Tag::BarWord) {
                    Some(BarDir::Bar)
                } else if is_tag(v.as_slice(), Tag::ColWord) {
                    Some(BarDir::Col)
                } else {
                    None
                };
            },
            None => {},
        }
    } else if is_tag(name, Tag::Ser) {
        let fresh = SeriesData { name: String::new(), values: Vec::new() };
        assert(series_view(fresh) =~= (SeriesView { name: seq![], values: seq![] }));
        st.cur_series = Some(fresh);
    } else if is_tag(name, Tag::Tx) {
        st.in_tx = true;
    } else if is_tag(name, Tag::Cat) {
        st.in_cat = true;
    } else if is_tag(name, Tag::Val) {
        st.in_val = true;
    } else if is_tag(name, Tag::Title) {
        st.in_chart_title = true;
    } else if is_tag(name, Tag::V) {
        st.in_v = true;
        st.cur_text_buf = String::new();
    } else if is_tag(name, Tag::T) {
        st.in_a_t = true;
        st.cur_text_buf = String::new();
    }
}

fn take_text(st: &mut ParseState) -> (r: String)
    ensures
        r@ == old(st).cur_text_buf@,
        state_view(*final(st)) == (ReadState { text: seq![], ..state_view(*old(st)) }),
        final(st).cur_series == old(st).cur_series,
{
    let mut t = String::new();
    std::mem::swap(&mut t, &mut st.cur_text_buf);
    t
}

fn handle_end(name: &[u8], chart: &mut ChartData, st: &mut ParseState)
    ensures
        (chart_view(*final(chart)), state_view(*final(st))) == end_step(
            chart_view(*old(chart)),
            state_view(*old(st)),
            name@,
        ),
{
    let ghost c0 = chart_view(*chart);
    let ghost s0 = state_view(*st);
    if is_tag(name, Tag::V) {
        st.in_v = false;
        let text = take_text(st);
        let mut cur = None;
        std::mem::swap(&mut cur, &mut st.cur_series);
        match cur {
            Some(mut ser) => {
                if st.in_tx {
                    if ser.name.as_str().is_empty() {
                        ser.name = text;
                    }
                } else if st.in_cat {
                    if chart.series.len() == 0 {
                        let ghost cats = chart.categories@;
                        chart.categories.push(text);
                        assert(strings_view(chart.categories@) =~= strings_view(cats).push(s0.text));
                    }
                } else if st.in_val {
                    let ghost vals = ser.values@;
                    ser.values.push(text);
                    assert(strings_view(ser.values@) =~= strings_view(vals).push(s0.text));
                }
                st.cur_series = Some(ser);
            },
            None => {},
        }
        assert((chart_view(*chart), state_view(*st)) == end_v_step(c0, s0));
    } else if is_tag(name, Tag::T) {
        st.in_a_t = false;
        let text = take_text(st);
        if st.in_chart_title && !text.as_str().is_empty() {
            let mut title = None;
            std::mem::swap(&mut title, &mut chart.title);
            match title {
                Some(mut x) => {
                    x.append(text.as_str());
                    chart.title = Some(x);
                },
                None => {
                    chart.title = Some(text);
                },
            }
        }
    } else if is_tag(name, Tag::Tx) {
        st.in_tx = false;
    } else if is_tag(name, Tag::Cat) {
        st.in_cat = false;
    } else if is_tag(name, Tag::Val) {
        st.in_val = false;
    } else if is_tag(name, Tag::Title) {
        st.in_chart_title = false;
    } else if is_tag(name, Tag::Ser) {
        let mut cur = None;
        std::mem::swap(&mut cur, &mut st.cur_series);
        match cur {
            Some(ser) => {
                let ghost ss = chart.series@;
                let ghost sv = series_view(ser);
                chart.series.push(ser);
                assert(chart.series@.map_values(|x: SeriesData| series_view(x)) =~= ss.map_values(
                    |x: SeriesData| series_view(x),
                ).push(sv));
            },
            None => {},
        }
    }
}

fn handle_text(t: &Option<String>, chart: &mut ChartData, st: &mut ParseState)
    ensures
        (chart_view(*final(chart)), state_view(*final(st))) == text_step(
            chart_view(*old(chart)),
            state_view(*old(st)),
            match *t {
                Some(x) => Some(x@),
                None => None,
            },
        ),
{
    if st.in_v || st.in_a_t {
        match t {
            Some(x) => st.cur_text_buf.append(x.as_str()),
            None => {
                let ghost b = st.cur_text_buf@;
                assert(b + Seq::<char>::empty() =~= b);
            },
        }
    }
}

/// Reads the chart that the tokens `events` of its XML describe: `None` for
/// malformed XML, for tokens that end before the end of the document, and
/// for a chart with neither a series nor a title.
pub fn parse_chart_events(events: &Vec<XmlEvent>) -> (r: Option<ChartData>)
    ensures
        match r {
            Some(c) => chart_of_events(events@) == Some(chart_view(c)),
            None => chart_of_events(events@) is None,
        },
{
    let mut chart = ChartData { chart_type: OoxmlChartType::Unknown, title: None, series: Vec::new(), categories: Vec::new() };
    let mut st = ParseState {
        cur_series: None,
        cur_text_buf: String::new(),
        in_tx: false,
        in_cat: false,
        in_val: false,
        in_chart_title: false,
        in_v: false,
        in_a_t: false,
        bar_dir: None,
    };
    assert(chart_view(chart) =~= empty_chart());
    assert(state_view(st) =~= start_state());
    let n = events.len();
    let mut i: usize = 0;
    loop
        invariant
            n == events@.len(),
            i <= n,
            read_events(empty_chart(), start_state(), events@, 0) == read_events(
                chart_view(chart),
                state_view(st),
                events@,
                i as int,
            ),
        ensures
            i < n,
            events@[i as int] is Eof,
            read_events(empty_chart(), start_state(), events@, 0) == Some((chart_view(chart), state_view(st))),
        decreases n - i,
    {
        if i >= n {
            return None;
        }
        match &events[i] {
            XmlEvent::Start(name, attrs, empty) => {
                handle_start(name.as_slice(), attrs, &mut chart, &mut st);
                if *empty {
                    handle_end(name.as_slice(), &mut chart, &mut st);
                }
            },
            XmlEvent::End(name) => {
                handle_end(name.as_slice(), &mut chart, &mut st);
            },
            XmlEvent::Text(t) => {
                handle_text(t, &mut chart, &mut st);
            },
            XmlEvent::Eof => {
                break;
            },
            XmlEvent::Error => {
                return None;
            },
            XmlEvent::Other => {},
        }
        i = i + 1;
    }
    if chart.series.len() == 0 && chart.title.is_none() {
        return None;
    }
    match chart.chart_type {
        OoxmlChartType::Column | OoxmlChartType::Bar => {
            chart.chart_type = match st.bar_dir {
                Some(BarDir::Bar) => OoxmlChartType::Bar,
                _ => OoxmlChartType::Column,
            };
        },
        _ => {},
    }
    Some(chart)
}

/// Reads the chart that the DrawingML chart XML `xml` describes (see
/// `parse_chart_events`); the tokens are those quick_xml gives for it, with
/// text trimmed, up to the end of the document or the first error.
pub fn parse_chart_xml(xml: &[u8]) -> (r: Option<ChartData>)
    ensures
        match r {
            Some(c) => chart_of_events(quick_xml_events(xml@)) == Some(chart_view(c)),
            None => chart_of_events(quick_xml_events(xml@)) is None,
        },
{
    let mut reader = trimmed_reader(xml);
    let ghost all = quick_xml_events(xml@);
    let mut events: Vec<XmlEvent> = Vec::new();
    let mut buf: Vec<u8> = Vec::new();
    loop
        invariant_except_break
            events@ + pending_events(reader) == all,
            events@.len() < all.len(),
        invariant
            all.len() > 0,
            is_last_event(all.last()),
            forall|i: int| 0 <= i < all.len() - 1 ==> !is_last_event(#[trigger] all[i]),
        ensures
            events@ == all,
        decreases pending_events(reader).len(),
    {
        let ghost before = pending_events(reader);
        let ev = next_event(&mut reader, &mut buf);
        buf.clear();
        let last = match ev {
            XmlEvent::Eof | XmlEvent::Error => true,
            _ => false,
        };
        proof {
            assert(before.len() > 0) by {
                assert(events@.len() + before.len() == all.len());
            }
            assert(before[0] == all[events@.len() as int]) by {
                assert((events@ + before)[events@.len() as int] == before[0]);
            }
        }
        events.push(ev);
        if last {
            proof {
                assert(events@.len() == all.len()) by {
                    if events@.len() < all.len() {
                        assert(!is_last_event(all[events@.len() - 1]));
                    }
                }
                assert(events@ =~= all);
            }
            break;
        }
        proof {
            assert(events@ + pending_events(reader) =~= all) by {
                assert(events@ =~= (events@.drop_last()).push(before[0]));
            }
            assert(events@.len() < all.len()) by {
                if events@.len() == all.len() {
                    assert(is_last_event(all[events@.len() - 1]));
                }
            }
        }
    }
    parse_chart_events(&events)
}

} // verus!
