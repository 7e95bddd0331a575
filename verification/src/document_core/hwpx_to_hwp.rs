//! The HWPX-to-HWP IR adapter: it brings an IR that the HWPX parser filled
//! into the form the HWP writer reads, and only for an HWPX source. Tables
//! (also those nested in cells) get their control data (the common object
//! attribute record) when they have none, and their attribute bits from that
//! data when they have none. A second run changes nothing.

use vstd::prelude::*;
use crate::model::{Document, Section, Paragraph, Table, Cell, Control};
use crate::parser::FileFormat;
use crate::emf::parser::{le32, read_le32};
use super::common_obj_attr_writer::{serialize_common_obj_attr, common_obj_attr_bytes,
    lemma_common_obj_attr_starts_with_attr};

verus! {

/// What the adapter changed, per area, or why it did nothing.
#[derive(Debug, Default, Clone, PartialEq)]
pub struct AdapterReport {
    /// Why the conversion was skipped (such as an HWP source); `None` when it ran.
    pub skipped_reason: Option<String>,
    /// Tables whose `raw_ctrl_data` was synthesised.
    pub tables_ctrl_data_synthesized: u32,
    /// Tables whose `attr` was rebuilt.
    pub tables_attr_packed: u32,
    /// Cells whose `list_attr` bit 16 was set.
    pub cells_list_attr_bit16_set: u32,
    /// Paragraphs whose break type was set.
    pub paragraphs_break_type_set: u32,
    /// Paragraphs whose line-segment vertical positions were precomputed.
    pub paragraphs_vpos_precomputed: u32,
}

/// The total count of changed items.
pub open spec fn total_changes(r: AdapterReport) -> int {
    r.tables_ctrl_data_synthesized + r.tables_attr_packed + r.cells_list_attr_bit16_set
        + r.paragraphs_break_type_set + r.paragraphs_vpos_precomputed
}

impl AdapterReport {
    /// A report with nothing changed and nothing skipped.
    pub fn new() -> (r: Self)
        ensures
            r.skipped_reason is None,
            total_changes(r) == 0,
            r.tables_ctrl_data_synthesized == 0,
            r.tables_attr_packed == 0,
            r.cells_list_attr_bit16_set == 0,
            r.paragraphs_break_type_set == 0,
            r.paragraphs_vpos_precomputed == 0,
    {
        AdapterReport {
            skipped_reason: None,
            tables_ctrl_data_synthesized: 0,
            tables_attr_packed: 0,
            cells_list_attr_bit16_set: 0,
            paragraphs_break_type_set: 0,
            paragraphs_vpos_precomputed: 0,
        }
    }

    /// The report marked as skipped for `reason`.
    pub fn no_op(self, reason: &str) -> (r: Self)
        ensures
            r.skipped_reason matches Some(s) && s@ == reason@,
            r.tables_ctrl_data_synthesized == self.tables_ctrl_data_synthesized,
            r.tables_attr_packed == self.tables_attr_packed,
            r.cells_list_attr_bit16_set == self.cells_list_attr_bit16_set,
            r.paragraphs_break_type_set == self.paragraphs_break_type_set,
            r.paragraphs_vpos_precomputed == self.paragraphs_vpos_precomputed,
    {
        let mut r = self;
        r.skipped_reason = Some(reason.to_owned());
        r
    }

    /// The adapter ran and changed at least one item.
    pub fn changed_anything(&self) -> (r: bool)
        requires
            total_changes(*self) <= u32::MAX,
        ensures
            r == (self.skipped_reason is None && total_changes(*self) > 0),
    {
        self.skipped_reason.is_none() && (self.tables_ctrl_data_synthesized + self.tables_attr_packed
            + self.cells_list_attr_bit16_set + self.paragraphs_break_type_set
            + self.paragraphs_vpos_precomputed) > 0
    }
}


// ───────────────────────────── What the adapter does ─────────────────────────────

/// The control data a table ends up with: its own, or the common object
/// attribute record when it has none.
pub open spec fn adapted_raw(t: Table) -> Seq<u8> {
    if t.raw_ctrl_data@.len() == 0 {
        common_obj_attr_bytes(t.common)
    } else {
        t.raw_ctrl_data@
    }
}

/// The table's attribute bits are taken from its control data: they are
/// unset, and the data's first four bytes (little-endian) are not zero.
pub open spec fn packs(t: Table) -> bool {
    let raw = adapted_raw(t);
    t.attr == 0 && raw.len() >= 4 && le32(raw, 0) != 0
}

/// `b` is table `a` adapted: its control data and attribute bits as above,
/// its cells adapted, everything else unchanged.
pub open spec fn adapted_table(a: Table, b: Table) -> bool
    decreases a,
{
    &&& b.raw_ctrl_data@ == adapted_raw(a)
    &&& b.attr == (if packs(a) { le32(adapted_raw(a), 0) } else { a.attr })
    &&& b.row_count == a.row_count
    &&& b.col_count == a.col_count
    &&& b.border_fill_id == a.border_fill_id
    &&& b.zones == a.zones
    &&& b.caption == a.caption
    &&& b.common == a.common
    &&& b.cells@.len() == a.cells@.len()
    &&& forall|k: int| 0 <= k < a.cells@.len() ==> adapted_cell(#[trigger] a.cells@[k], b.cells@[k])
}

pub open spec fn adapted_cell(a: Cell, b: Cell) -> bool
    decreases a,
{
    &&& b.col == a.col
    &&& b.row == a.row
    &&& b.col_span == a.col_span
    &&& b.row_span == a.row_span
    &&& b.border_fill_id == a.border_fill_id
    &&& adapted_paragraphs(a.paragraphs@, b.paragraphs@)
}

pub open spec fn adapted_paragraphs(a: Seq<Paragraph>, b: Seq<Paragraph>) -> bool
    decreases a,
{
    &&& b.len() == a.len()
    &&& forall|k: int| 0 <= k < a.len() ==> adapted_paragraph(#[trigger] a[k], b[k])
}

/// `b` is paragraph `a` with the tables among its controls adapted.
pub open spec fn adapted_paragraph(a: Paragraph, b: Paragraph) -> bool
    decreases a,
{
    &&& b.text == a.text
    &&& b.char_count == a.char_count
    &&& b.para_shape_id == a.para_shape_id
    &&& b.style_id == a.style_id
    &&& b.char_shapes == a.char_shapes
    &&& b.controls@.len() == a.controls@.len()
    &&& forall|k: int| 0 <= k < a.controls@.len() ==> adapted_control(#[trigger] a.controls@[k], b.controls@[k])
}

pub open spec fn adapted_control(a: Control, b: Control) -> bool
    decreases a,
{
    match a {
        Control::Table(t) => b matches Control::Table(u) && adapted_table(*t, *u),
        _ => b == a,
    }
}

/// Adds two pairs of counts.
pub open spec fn add2(a: (nat, nat), b: (nat, nat)) -> (nat, nat) {
    (a.0 + b.0, a.1 + b.1)
}

/// The counts of a table and the tables in its cells: (tables whose control
/// data is synthesised, tables whose attribute bits are taken from it).
pub open spec fn table_counts(t: Table) -> (nat, nat)
    decreases t,
{
    let own = (if t.raw_ctrl_data@.len() == 0 { 1nat } else { 0nat }, if packs(t) { 1nat } else { 0nat });
    add2(own, cells_counts(t.cells@))
}

pub open spec fn cells_counts(cs: Seq<Cell>) -> (nat, nat)
    decreases cs,
{
    if cs.len() == 0 {
        (0, 0)
    } else {
        add2(cells_counts(cs.subrange(0, cs.len() - 1)), paragraphs_counts(cs[cs.len() - 1].paragraphs@))
    }
}

pub open spec fn paragraphs_counts(ps: Seq<Paragraph>) -> (nat, nat)
    decreases ps,
{
    if ps.len() == 0 {
        (0, 0)
    } else {
        add2(paragraphs_counts(ps.subrange(0, ps.len() - 1)), controls_counts(ps[ps.len() - 1].controls@))
    }
}

pub open spec fn controls_counts(cs: Seq<Control>) -> (nat, nat)
    decreases cs,
{
    if cs.len() == 0 {
        (0, 0)
    } else {
        add2(controls_counts(cs.subrange(0, cs.len() - 1)), control_counts(cs[cs.len() - 1]))
    }
}

pub open spec fn control_counts(c: Control) -> (nat, nat)
    decreases c,
{
    match c {
        Control::Table(t) => table_counts(*t),
        _ => (0, 0),
    }
}

/// The counts of every section.
pub open spec fn sections_counts(ss: Seq<Section>) -> (nat, nat)
    decreases ss.len(),
{
    if ss.len() == 0 {
        (0, 0)
    } else {
        add2(sections_counts(ss.subrange(0, ss.len() - 1)), paragraphs_counts(ss[ss.len() - 1].paragraphs@))
    }
}

/// `report` can count `c` more without overflowing.
pub open spec fn fits(report: AdapterReport, c: (nat, nat)) -> bool {
    &&& report.tables_ctrl_data_synthesized + c.0 <= u32::MAX
    &&& report.tables_attr_packed + c.1 <= u32::MAX
}

/// `new` is `old` with `c` counted.
pub open spec fn counted(old: AdapterReport, new: AdapterReport, c: (nat, nat)) -> bool {
    &&& new.tables_ctrl_data_synthesized == old.tables_ctrl_data_synthesized + c.0
    &&& new.tables_attr_packed == old.tables_attr_packed + c.1
    &&& new.skipped_reason == old.skipped_reason
    &&& new.cells_list_attr_bit16_set == old.cells_list_attr_bit16_set
    &&& new.paragraphs_break_type_set == old.paragraphs_break_type_set
    &&& new.paragraphs_vpos_precomputed == old.paragraphs_vpos_precomputed
}

proof fn lemma_cells_counts_prefix(cs: Seq<Cell>, k: int)
    requires
        0 <= k <= cs.len(),
    ensures
        cells_counts(cs.subrange(0, k)).0 <= cells_counts(cs).0,
        cells_counts(cs.subrange(0, k)).1 <= cells_counts(cs).1,
    decreases cs.len(),
{
    if k < cs.len() {
        let s = cs.subrange(0, cs.len() - 1);
        lemma_cells_counts_prefix(s, k);
        assert(s.subrange(0, k) =~= cs.subrange(0, k));
    } else {
        assert(cs.subrange(0, k) =~= cs);
    }
}

proof fn lemma_paragraphs_counts_prefix(ps: Seq<Paragraph>, k: int)
    requires
        0 <= k <= ps.len(),
    ensures
        paragraphs_counts(ps.subrange(0, k)).0 <= paragraphs_counts(ps).0,
        paragraphs_counts(ps.subrange(0, k)).1 <= paragraphs_counts(ps).1,
    decreases ps.len(),
{
    if k < ps.len() {
        let s = ps.subrange(0, ps.len() - 1);
        lemma_paragraphs_counts_prefix(s, k);
        assert(s.subrange(0, k) =~= ps.subrange(0, k));
    } else {
        assert(ps.subrange(0, k) =~= ps);
    }
}

proof fn lemma_controls_counts_prefix(cs: Seq<Control>, k: int)
    requires
        0 <= k <= cs.len(),
    ensures
        controls_counts(cs.subrange(0, k)).0 <= controls_counts(cs).0,
        controls_counts(cs.subrange(0, k)).1 <= controls_counts(cs).1,
    decreases cs.len(),
{
    if k < cs.len() {
        let s = cs.subrange(0, cs.len() - 1);
        lemma_controls_counts_prefix(s, k);
        assert(s.subrange(0, k) =~= cs.subrange(0, k));
    } else {
        assert(cs.subrange(0, k) =~= cs);
    }
}

proof fn lemma_sections_counts_prefix(ss: Seq<Section>, k: int)
    requires
        0 <= k <= ss.len(),
    ensures
        sections_counts(ss.subrange(0, k)).0 <= sections_counts(ss).0,
        sections_counts(ss.subrange(0, k)).1 <= sections_counts(ss).1,
    decreases ss.len(),
{
    if k < ss.len() {
        let s = ss.subrange(0, ss.len() - 1);
        lemma_sections_counts_prefix(s, k);
        assert(s.subrange(0, k) =~= ss.subrange(0, k));
    } else {
        assert(ss.subrange(0, k) =~= ss);
    }
}

// ───────────────────────────── The adapter ─────────────────────────────

fn placeholder_cell() -> (r: Cell)
    ensures
        r.col == 0,
        r.row == 0,
        r.col_span == 0,
        r.row_span == 0,
        r.border_fill_id == 0,
        r.paragraphs@.len() == 0,
{
    Cell { col: 0, row: 0, col_span: 0, row_span: 0, border_fill_id: 0, paragraphs: Vec::new() }
}

fn placeholder_paragraph() -> (r: Paragraph)
    ensures
        r.text@.len() == 0,
        r.char_count == 0,
        r.para_shape_id == 0,
        r.style_id == 0,
        r.char_shapes@.len() == 0,
        r.controls@.len() == 0,
{
    Paragraph {
        text: String::new(),
        char_count: 0,
        para_shape_id: 0,
        style_id: 0,
        char_shapes: Vec::new(),
        controls: Vec::new(),
    }
}

fn adapt_table_owned(t: Table, report: &mut AdapterReport) -> (r: Table)
    requires
        fits(*old(report), table_counts(t)),
    ensures
        adapted_table(t, r),
        counted(*old(report), *final(report), table_counts(t)),
    decreases t,
{
    let ghost t0 = t;
    let ghost r0 = *report;
    let Table { row_count, col_count, border_fill_id, zones, cells, caption, attr, raw_ctrl_data, common } = t;
    let mut raw = raw_ctrl_data;
    let mut attr = attr;
    if raw.len() == 0 {
        raw = serialize_common_obj_attr(&common);
        report.tables_ctrl_data_synthesized = report.tables_ctrl_data_synthesized + 1;
    }
    proof {
        lemma_common_obj_attr_starts_with_attr(common);
    }
    if attr == 0 && raw.len() >= 4 {
        let a = read_le32(raw.as_slice(), 0);
        if a != 0 {
            attr = a;
            report.tables_attr_packed = report.tables_attr_packed + 1;
        }
    }
    let ghost r1 = *report;
    assert(r1.tables_ctrl_data_synthesized + cells_counts(t0.cells@).0 <= u32::MAX);
    let mut cells = cells;
    let n = cells.len();
    let mut k: usize = 0;
    assert(t0.cells@.subrange(0, 0) =~= Seq::<Cell>::empty());
    while k < n
        invariant
            n == t0.cells@.len(),
            cells@.len() == n,
            k <= n,
            t0 == t,
            forall|j: int| 0 <= j < k ==> adapted_cell(#[trigger] t0.cells@[j], cells@[j]),
            forall|j: int| k <= j < n ==> cells@[j] == t0.cells@[j],
            counted(r1, *report, cells_counts(t0.cells@.subrange(0, k as int))),
            fits(r1, cells_counts(t0.cells@)),
        decreases n - k,
    {
        let mut tmp = placeholder_cell();
        std::mem::swap(&mut tmp, &mut cells[k]);
        assert(tmp == t0.cells@[k as int]);
        assert(decreases_to!(t => tmp));
        proof {
            lemma_cells_counts_prefix(t0.cells@, k + 1);
            assert(t0.cells@.subrange(0, k + 1).subrange(0, k as int) =~= t0.cells@.subrange(0, k as int));
        }
        let w = adapt_cell_owned(tmp, report);
        cells.set(k, w);
        k = k + 1;
    }
    assert(t0.cells@.subrange(0, n as int) =~= t0.cells@);
    Table { row_count, col_count, border_fill_id, zones, cells, caption, attr, raw_ctrl_data: raw, common }
}

fn adapt_cell_owned(c: Cell, report: &mut AdapterReport) -> (r: Cell)
    requires
        fits(*old(report), paragraphs_counts(c.paragraphs@)),
    ensures
        adapted_cell(c, r),
        counted(*old(report), *final(report), paragraphs_counts(c.paragraphs@)),
    decreases c,
{
    let Cell { col, row, col_span, row_span, border_fill_id, paragraphs } = c;
    let paragraphs = adapt_paragraphs_owned(paragraphs, report);
    Cell { col, row, col_span, row_span, border_fill_id, paragraphs }
}

fn adapt_paragraphs_owned(ps: Vec<Paragraph>, report: &mut AdapterReport) -> (r: Vec<Paragraph>)
    requires
        fits(*old(report), paragraphs_counts(ps@)),
    ensures
        adapted_paragraphs(ps@, r@),
        counted(*old(report), *final(report), paragraphs_counts(ps@)),
    decreases ps,
{
    let ghost v0 = ps;
    let ghost r1 = *report;
    let mut v = ps;
    let n = v.len();
    let mut k: usize = 0;
    assert(v0@.subrange(0, 0) =~= Seq::<Paragraph>::empty());
    while k < n
        invariant
            n == v0@.len(),
            v@.len() == n,
            k <= n,
            v0 == ps,
            forall|j: int| 0 <= j < k ==> adapted_paragraph(#[trigger] v0@[j], v@[j]),
            forall|j: int| k <= j < n ==> v@[j] == v0@[j],
            counted(r1, *report, paragraphs_counts(v0@.subrange(0, k as int))),
            fits(r1, paragraphs_counts(v0@)),
        decreases n - k,
    {
        let mut tmp = placeholder_paragraph();
        std::mem::swap(&mut tmp, &mut v[k]);
        assert(tmp == v0@[k as int]);
        assert(decreases_to!(ps => tmp));
        proof {
            lemma_paragraphs_counts_prefix(v0@, k + 1);
            assert(v0@.subrange(0, k + 1).subrange(0, k as int) =~= v0@.subrange(0, k as int));
        }
        let w = adapt_paragraph_owned(tmp, report);
        v.set(k, w);
        k = k + 1;
    }
    assert(v0@.subrange(0, n as int) =~= v0@);
    v
}

fn adapt_paragraph_owned(p: Paragraph, report: &mut AdapterReport) -> (r: Paragraph)
    requires
        fits(*old(report), controls_counts(p.controls@)),
    ensures
        adapted_paragraph(p, r),
        counted(*old(report), *final(report), controls_counts(p.controls@)),
    decreases p,
{
    let ghost p0 = p;
    let ghost r1 = *report;
    let Paragraph { text, char_count, para_shape_id, style_id, char_shapes, controls } = p;
    let mut controls = controls;
    let n = controls.len();
    let mut k: usize = 0;
    assert(p0.controls@.subrange(0, 0) =~= Seq::<Control>::empty());
    while k < n
        invariant
            n == p0.controls@.len(),
            controls@.len() == n,
            k <= n,
            p0 == p,
            forall|j: int| 0 <= j < k ==> adapted_control(#[trigger] p0.controls@[j], controls@[j]),
            forall|j: int| k <= j < n ==> controls@[j] == p0.controls@[j],
            counted(r1, *report, controls_counts(p0.controls@.subrange(0, k as int))),
            fits(r1, controls_counts(p0.controls@)),
        decreases n - k,
    {
        let mut tmp = Control::Other(0);
        std::mem::swap(&mut tmp, &mut controls[k]);
        assert(tmp == p0.controls@[k as int]);
        assert(decreases_to!(p => tmp));
        proof {
            lemma_controls_counts_prefix(p0.controls@, k + 1);
            assert(p0.controls@.subrange(0, k + 1).subrange(0, k as int) =~= p0.controls@.subrange(0, k as int));
        }
        let w = adapt_control_owned(tmp, report);
        controls.set(k, w);
        k = k + 1;
    }
    assert(p0.controls@.subrange(0, n as int) =~= p0.controls@);
    Paragraph { text, char_count, para_shape_id, style_id, char_shapes, controls }
}

fn adapt_control_owned(c: Control, report: &mut AdapterReport) -> (r: Control)
    requires
        fits(*old(report), control_counts(c)),
    ensures
        adapted_control(c, r),
        counted(*old(report), *final(report), control_counts(c)),
    decreases c,
{
    match c {
        Control::Table(b) => Control::Table(Box::new(adapt_table_owned(*b, report))),
        other => other,
    }
}

/// The report of a run of the adapter that counted `c`.
pub open spec fn report_of(r: AdapterReport, c: (nat, nat)) -> bool {
    &&& r.skipped_reason is None
    &&& r.tables_ctrl_data_synthesized == c.0
    &&& r.tables_attr_packed == c.1
    &&& r.cells_list_attr_bit16_set == 0
    &&& r.paragraphs_break_type_set == 0
    &&& r.paragraphs_vpos_precomputed == 0
}

/// `b` is document `a` adapted: its definitions unchanged, every section's
/// paragraphs adapted and its raw stream kept.
pub open spec fn adapted_document(a: Document, b: Document) -> bool {
    &&& b.doc_info == a.doc_info
    &&& b.sections@.len() == a.sections@.len()
    &&& forall|j: int| 0 <= j < a.sections@.len() ==> {
        &&& (#[trigger] b.sections@[j]).raw_stream == a.sections@[j].raw_stream
        &&& adapted_paragraphs(a.sections@[j].paragraphs@, b.sections@[j].paragraphs@)
    }
}

/// Brings an IR filled from HWPX into the form the HWP writer reads (see the
/// module documentation) and reports what it changed. The counts are `u32`,
/// so the document may hold at most `u32::MAX` tables of each kind.
pub fn convert_hwpx_to_hwp_ir(doc: &mut Document) -> (r: AdapterReport)
    requires
        sections_counts(old(doc).sections@).0 <= u32::MAX,
        sections_counts(old(doc).sections@).1 <= u32::MAX,
    ensures
        adapted_document(*old(doc), *final(doc)),
        report_of(r, sections_counts(old(doc).sections@)),
{
    let mut report = AdapterReport::new();
    let ghost d0 = *doc;
    let mut sections: Vec<Section> = Vec::new();
    std::mem::swap(&mut sections, &mut doc.sections);
    let n = sections.len();
    let mut k: usize = 0;
    assert(d0.sections@.subrange(0, 0) =~= Seq::<Section>::empty());
    while k < n
        invariant
            n == d0.sections@.len(),
            sections@.len() == n,
            k <= n,
            doc.doc_info == d0.doc_info,
            forall|j: int| 0 <= j < k ==> {
                &&& (#[trigger] sections@[j]).raw_stream == d0.sections@[j].raw_stream
                &&& adapted_paragraphs(d0.sections@[j].paragraphs@, sections@[j].paragraphs@)
            },
            forall|j: int| k <= j < n ==> sections@[j] == d0.sections@[j],
            report_of(report, sections_counts(d0.sections@.subrange(0, k as int))),
            sections_counts(d0.sections@).0 <= u32::MAX,
            sections_counts(d0.sections@).1 <= u32::MAX,
        decreases n - k,
    {
        let mut sec = Section { paragraphs: Vec::new(), raw_stream: None };
        std::mem::swap(&mut sec, &mut sections[k]);
        assert(sec == d0.sections@[k as int]);
        proof {
            lemma_sections_counts_prefix(d0.sections@, k + 1);
            assert(d0.sections@.subrange(0, k + 1).subrange(0, k as int) =~= d0.sections@.subrange(0, k as int));
        }
        let Section { paragraphs, raw_stream } = sec;
        let paragraphs = adapt_paragraphs_owned(paragraphs, &mut report);
        sections.set(k, Section { paragraphs, raw_stream });
        k = k + 1;
    }
    assert(d0.sections@.subrange(0, n as int) =~= d0.sections@);
    doc.sections = sections;
    report
}

/// `source_format != Hwpx`.
pub open spec fn not_hwpx_reason() -> Seq<char> {
    "source_format != Hwpx"@
}

/// Runs the adapter on a document loaded from HWPX; for any other source the
/// document is left as it is and the report says why.
pub fn convert_if_hwpx_source(doc: &mut Document, source_format: FileFormat) -> (r: AdapterReport)
    requires
        source_format == FileFormat::Hwpx ==> sections_counts(old(doc).sections@).0 <= u32::MAX
            && sections_counts(old(doc).sections@).1 <= u32::MAX,
    ensures
        source_format != FileFormat::Hwpx ==> {
            &&& *final(doc) == *old(doc)
            &&& r.skipped_reason matches Some(s) && s@ == not_hwpx_reason()
            &&& r.tables_ctrl_data_synthesized == 0
            &&& r.tables_attr_packed == 0
            &&& r.cells_list_attr_bit16_set == 0
            &&& r.paragraphs_break_type_set == 0
            &&& r.paragraphs_vpos_precomputed == 0
        },
        source_format == FileFormat::Hwpx ==> adapted_document(*old(doc), *final(doc)) && report_of(
            r,
            sections_counts(old(doc).sections@),
        ),
{
    match source_format {
        FileFormat::Hwpx => convert_hwpx_to_hwp_ir(doc),
        _ => AdapterReport::new().no_op("source_format != Hwpx"),
    }
}


// ───────────────────────────── A second run changes nothing ─────────────────────────────

proof fn lemma_cells_zero(cs: Seq<Cell>)
    requires
        forall|k: int| 0 <= k < cs.len() ==> paragraphs_counts(#[trigger] cs[k].paragraphs@) == (0nat, 0nat),
    ensures
        cells_counts(cs) == (0nat, 0nat),
    decreases cs.len(),
{
    if cs.len() > 0 {
        let s = cs.subrange(0, cs.len() - 1);
        assert forall|k: int| 0 <= k < s.len() implies paragraphs_counts(#[trigger] s[k].paragraphs@) == (0nat, 0nat) by {
            assert(s[k] == cs[k]);
        }
        lemma_cells_zero(s);
    }
}

proof fn lemma_paragraphs_zero(ps: Seq<Paragraph>)
    requires
        forall|k: int| 0 <= k < ps.len() ==> controls_counts(#[trigger] ps[k].controls@) == (0nat, 0nat),
    ensures
        paragraphs_counts(ps) == (0nat, 0nat),
    decreases ps.len(),
{
    if ps.len() > 0 {
        let s = ps.subrange(0, ps.len() - 1);
        assert forall|k: int| 0 <= k < s.len() implies controls_counts(#[trigger] s[k].controls@) == (0nat, 0nat) by {
            assert(s[k] == ps[k]);
        }
        lemma_paragraphs_zero(s);
    }
}

proof fn lemma_controls_zero(cs: Seq<Control>)
    requires
        forall|k: int| 0 <= k < cs.len() ==> control_counts(#[trigger] cs[k]) == (0nat, 0nat),
    ensures
        controls_counts(cs) == (0nat, 0nat),
    decreases cs.len(),
{
    if cs.len() > 0 {
        let s = cs.subrange(0, cs.len() - 1);
        assert forall|k: int| 0 <= k < s.len() implies control_counts(#[trigger] s[k]) == (0nat, 0nat) by {
            assert(s[k] == cs[k]);
        }
        lemma_controls_zero(s);
    }
}

proof fn lemma_sections_zero(ss: Seq<Section>)
    requires
        forall|k: int| 0 <= k < ss.len() ==> paragraphs_counts(#[trigger] ss[k].paragraphs@) == (0nat, 0nat),
    ensures
        sections_counts(ss) == (0nat, 0nat),
    decreases ss.len(),
{
    if ss.len() > 0 {
        let s = ss.subrange(0, ss.len() - 1);
        assert forall|k: int| 0 <= k < s.len() implies paragraphs_counts(#[trigger] s[k].paragraphs@) == (0nat, 0nat) by {
            assert(s[k] == ss[k]);
        }
        lemma_sections_zero(s);
    }
}

proof fn lemma_table_settled(a: Table, b: Table)
    requires
        adapted_table(a, b),
    ensures
        adapted_table(b, b),
        table_counts(b) == (0nat, 0nat),
    decreases a,
{
    lemma_common_obj_attr_starts_with_attr(a.common);
    assert(adapted_raw(b) == b.raw_ctrl_data@);
    assert(!packs(b));
    assert forall|k: int| 0 <= k < b.cells@.len() implies adapted_cell(#[trigger] b.cells@[k], b.cells@[k])
        && paragraphs_counts(b.cells@[k].paragraphs@) == (0nat, 0nat) by {
        lemma_cell_settled(a.cells@[k], b.cells@[k]);
    }
    lemma_cells_zero(b.cells@);
}

proof fn lemma_cell_settled(a: Cell, b: Cell)
    requires
        adapted_cell(a, b),
    ensures
        adapted_cell(b, b),
        paragraphs_counts(b.paragraphs@) == (0nat, 0nat),
    decreases a,
{
    lemma_paragraphs_settled(a.paragraphs@, b.paragraphs@);
}

proof fn lemma_paragraphs_settled(a: Seq<Paragraph>, b: Seq<Paragraph>)
    requires
        adapted_paragraphs(a, b),
    ensures
        adapted_paragraphs(b, b),
        paragraphs_counts(b) == (0nat, 0nat),
    decreases a,
{
    assert forall|k: int| 0 <= k < b.len() implies adapted_paragraph(#[trigger] b[k], b[k])
        && controls_counts(b[k].controls@) == (0nat, 0nat) by {
        lemma_paragraph_settled(a[k], b[k]);
    }
    lemma_paragraphs_zero(b);
}

proof fn lemma_paragraph_settled(a: Paragraph, b: Paragraph)
    requires
        adapted_paragraph(a, b),
    ensures
        adapted_paragraph(b, b),
        controls_counts(b.controls@) == (0nat, 0nat),
    decreases a,
{
    assert forall|k: int| 0 <= k < b.controls@.len() implies adapted_control(#[trigger] b.controls@[k], b.controls@[k])
        && control_counts(b.controls@[k]) == (0nat, 0nat) by {
        lemma_control_settled(a.controls@[k], b.controls@[k]);
    }
    lemma_controls_zero(b.controls@);
}

proof fn lemma_control_settled(a: Control, b: Control)
    requires
        adapted_control(a, b),
    ensures
        adapted_control(b, b),
        control_counts(b) == (0nat, 0nat),
    decreases a,
{
    match a {
        Control::Table(t) => {
            let u = b->Table_0;
            lemma_table_settled(*t, *u);
        },
        _ => {},
    }
}

/// The adapter is idempotent: on a document it has already adapted, a
/// second run changes nothing and counts nothing.
pub proof fn lemma_adapter_idempotent(a: Document, b: Document)
    requires
        adapted_document(a, b),
    ensures
        adapted_document(b, b),
        sections_counts(b.sections@) == (0nat, 0nat),
{
    assert forall|j: int| 0 <= j < b.sections@.len() implies adapted_paragraphs(
        (#[trigger] b.sections@[j]).paragraphs@,
        b.sections@[j].paragraphs@,
    ) && paragraphs_counts(b.sections@[j].paragraphs@) == (0nat, 0nat) by {
        lemma_paragraphs_settled(a.sections@[j].paragraphs@, b.sections@[j].paragraphs@);
    }
    lemma_sections_zero(b.sections@);
}

} // verus!
