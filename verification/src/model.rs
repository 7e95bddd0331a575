//! The document IR: the definitions of `DocInfo` and the sections of
//! paragraphs, with the fields that the editing commands read and rewrite.

use vstd::prelude::*;

verus! {

/// A border/fill definition.
#[derive(Debug, Clone, Copy, Default)]
pub struct BorderFill {
    pub attr: u16,
}

/// A character shape: the font of each of the seven scripts and the
/// border/fill it refers to.
#[derive(Debug, Clone, Copy, Default)]
pub struct CharShape {
    pub font_ids: [u16; 7],
    pub border_fill_id: u16,
}

/// A paragraph shape.
#[derive(Debug, Clone, Copy, Default)]
pub struct ParaShape {
    pub margin_left: i32,
    pub border_fill_id: u16,
}

/// A style: its name and kind, and the paragraph and character shapes it uses.
#[derive(Debug, Clone, Default)]
pub struct Style {
    pub local_name: String,
    pub style_type: u8,
    pub para_shape_id: u16,
    pub char_shape_id: u16,
}

/// An entry of the binary data list: an embedded item (image, OLE object)
/// by its storage id and file extension.
#[derive(Debug, Clone, Default)]
pub struct BinData {
    pub storage_id: u16,
    pub extension: String,
}

/// The document-wide definitions.
#[derive(Debug, Clone, Default)]
pub struct DocInfo {
    pub border_fills: Vec<BorderFill>,
    pub char_shapes: Vec<CharShape>,
    pub para_shapes: Vec<ParaShape>,
    pub styles: Vec<Style>,
    /// The embedded binary items the document refers to.
    pub bin_data_list: Vec<BinData>,
    /// The raw `DocInfo` stream no longer matches the definitions.
    pub raw_stream_dirty: bool,
}

/// A character-shape run of a paragraph: from `start_pos` on, `char_shape_id`.
#[derive(Debug, Clone, Copy, Default, PartialEq, Eq)]
pub struct CharShapeRef {
    pub start_pos: u32,
    pub char_shape_id: u32,
}

/// A border/fill zone of a table.
#[derive(Debug, Clone, Copy, Default)]
pub struct TableZone {
    pub start_col: u16,
    pub start_row: u16,
    pub end_col: u16,
    pub end_row: u16,
    pub border_fill_id: u16,
}

/// A table cell.
#[derive(Debug, Default)]
pub struct Cell {
    pub col: u16,
    pub row: u16,
    pub col_span: u16,
    pub row_span: u16,
    pub border_fill_id: u16,
    pub paragraphs: Vec<Paragraph>,
}

/// A table caption.
#[derive(Debug, Default)]
pub struct Caption {
    pub paragraphs: Vec<Paragraph>,
}

/// The attributes common to every object control (tables, pictures,
/// shapes): the record that starts the control's data.
#[derive(Debug, Default)]
pub struct CommonObjAttr {
    pub attr: u32,
    pub vertical_offset: u32,
    pub horizontal_offset: u32,
    pub width: u32,
    pub height: u32,
    pub z_order: i32,
    /// Outer margins: left, right, top, bottom.
    pub margin: [i16; 4],
    pub instance_id: u32,
    pub prevent_page_break: i32,
    pub description: String,
}

/// A table.
#[derive(Debug, Default)]
pub struct Table {
    pub row_count: u16,
    pub col_count: u16,
    pub border_fill_id: u16,
    pub zones: Vec<TableZone>,
    pub cells: Vec<Cell>,
    pub caption: Option<Caption>,
    /// The object attribute bits.
    pub attr: u32,
    /// The control data as read from an HWP file (empty for an HWPX source).
    pub raw_ctrl_data: Vec<u8>,
    pub common: CommonObjAttr,
}

/// A header (page header) with its paragraphs.
#[derive(Debug, Default)]
pub struct Header {
    pub paragraphs: Vec<Paragraph>,
}

/// A footer with its paragraphs.
#[derive(Debug, Default)]
pub struct Footer {
    pub paragraphs: Vec<Paragraph>,
}

/// A footnote with its paragraphs.
#[derive(Debug, Default)]
pub struct Footnote {
    pub paragraphs: Vec<Paragraph>,
}

/// An endnote with its paragraphs.
#[derive(Debug, Default)]
pub struct Endnote {
    pub paragraphs: Vec<Paragraph>,
}

/// Overlapping characters, each with its character shape.
#[derive(Debug, Clone, Default)]
pub struct CharOverlap {
    pub chars: Vec<char>,
    pub char_shape_ids: Vec<u32>,
}

/// A control of a paragraph; controls without shape references are kept as
/// `Other` with their control id.
#[derive(Debug)]
pub enum Control {
    Table(Box<Table>),
    Header(Box<Header>),
    Footer(Box<Footer>),
    Footnote(Box<Footnote>),
    Endnote(Box<Endnote>),
    CharOverlap(CharOverlap),
    Other(u32),
}

/// A paragraph.
#[derive(Debug, Default)]
pub struct Paragraph {
    pub text: String,
    pub char_count: u32,
    pub para_shape_id: u16,
    pub style_id: u8,
    pub char_shapes: Vec<CharShapeRef>,
    pub controls: Vec<Control>,
}

/// `n`, or `u32::MAX` when it does not fit.
pub open spec fn sat_u32(n: int) -> u32 {
    if n > u32::MAX {
        u32::MAX
    } else {
        n as u32
    }
}

/// The character shape in effect at character `k`: that of the last run (in
/// order) that starts at or before `k`.
pub open spec fn run_in_effect(rs: Seq<CharShapeRef>, k: int) -> Option<u32>
    decreases rs.len(),
{
    if rs.len() == 0 {
        None
    } else if rs.last().start_pos <= k {
        Some(rs.last().char_shape_id)
    } else {
        run_in_effect(rs.drop_last(), k)
    }
}

/// The runs that start before character `k`, in order.
pub open spec fn runs_before(rs: Seq<CharShapeRef>, k: int) -> Seq<CharShapeRef>
    decreases rs.len(),
{
    if rs.len() == 0 {
        seq![]
    } else if rs.last().start_pos < k {
        runs_before(rs.drop_last(), k).push(rs.last())
    } else {
        runs_before(rs.drop_last(), k)
    }
}

/// The runs that start after character `k`, in order, moved back by `k`.
pub open spec fn runs_after(rs: Seq<CharShapeRef>, k: int) -> Seq<CharShapeRef>
    decreases rs.len(),
{
    if rs.len() == 0 {
        seq![]
    } else if rs.last().start_pos > k {
        runs_after(rs.drop_last(), k).push(
            CharShapeRef { start_pos: (rs.last().start_pos - k) as u32, char_shape_id: rs.last().char_shape_id },
        )
    } else {
        runs_after(rs.drop_last(), k)
    }
}

/// The runs of the part of a paragraph from character `k` on: the shape in
/// effect at `k` from its start, then the runs that start after `k`.
pub open spec fn right_runs(rs: Seq<CharShapeRef>, k: int) -> Seq<CharShapeRef> {
    match run_in_effect(rs, k) {
        Some(id) => seq![CharShapeRef { start_pos: 0, char_shape_id: id }] + runs_after(rs, k),
        None => runs_after(rs, k),
    }
}

/// Where a paragraph is cut for the caret `offset`: `offset`, or the end of
/// its text when the caret lies beyond it.
pub open spec fn cut_point(p: Paragraph, offset: int) -> int {
    if offset < p.text@.len() {
        offset
    } else {
        p.text@.len() as int
    }
}

/// `b` is the part of `a` before the cut for `offset`: the text before it, its
/// character count, the runs that start before it, and everything else of `a`.
pub open spec fn is_left_part(a: Paragraph, b: Paragraph, offset: int) -> bool {
    let k = cut_point(a, offset);
    &&& b.text@ == a.text@.subrange(0, k)
    &&& b.char_count == sat_u32(k)
    &&& b.para_shape_id == a.para_shape_id
    &&& b.style_id == a.style_id
    &&& b.char_shapes@ == runs_before(a.char_shapes@, k)
    &&& b.controls == a.controls
}

/// `b` is the part of `a` from the cut for `offset` on: the rest of the text,
/// its character count, the right runs, the paragraph shape and style of `a`,
/// and no controls.
pub open spec fn is_right_part(a: Paragraph, b: Paragraph, offset: int) -> bool {
    let k = cut_point(a, offset);
    &&& b.text@ == a.text@.subrange(k, a.text@.len() as int)
    &&& b.char_count == sat_u32(a.text@.len() - k)
    &&& b.para_shape_id == a.para_shape_id
    &&& b.style_id == a.style_id
    &&& b.char_shapes@ == right_runs(a.char_shapes@, k)
    &&& b.controls@.len() == 0
}

fn sat_u32_of(n: usize) -> (r: u32)
    ensures
        r == sat_u32(n as int),
{
    if n > 4294967295usize {
        4294967295u32
    } else {
        n as u32
    }
}

/// The runs before `k`, the shape in effect at `k`, and the runs after `k`.
fn split_runs(rs: &Vec<CharShapeRef>, k: usize) -> (r: (Vec<CharShapeRef>, Vec<CharShapeRef>))
    ensures
        r.0@ == runs_before(rs@, k as int),
        r.1@ == right_runs(rs@, k as int),
{
    let mut before: Vec<CharShapeRef> = Vec::new();
    let mut after: Vec<CharShapeRef> = Vec::new();
    let mut at: Option<u32> = None;
    let n = rs.len();
    let mut i: usize = 0;
    assert(rs@.subrange(0, 0) =~= Seq::<CharShapeRef>::empty());
    while i < n
        invariant
            n == rs@.len(),
            i <= n,
            before@ == runs_before(rs@.subrange(0, i as int), k as int),
            after@ == runs_after(rs@.subrange(0, i as int), k as int),
            at == run_in_effect(rs@.subrange(0, i as int), k as int),
        decreases n - i,
    {
        let c = rs[i];
        proof {
            let s1 = rs@.subrange(0, i + 1);
            assert(s1.drop_last() =~= rs@.subrange(0, i as int));
            assert(s1.last() == c);
        }
        if (c.start_pos as usize) < k {
            before.push(c);
        }
        if (c.start_pos as usize) <= k {
            at = Some(c.char_shape_id);
        } else {
            after.push(CharShapeRef { start_pos: c.start_pos - (k as u32), char_shape_id: c.char_shape_id });
        }
        i = i + 1;
    }
    assert(rs@.subrange(0, n as int) =~= rs@);
    match at {
        Some(id) => {
            let mut right: Vec<CharShapeRef> = Vec::new();
            right.push(CharShapeRef { start_pos: 0, char_shape_id: id });
            let ghost a0 = after@;
            right.append(&mut after);
            assert(right@ =~= seq![CharShapeRef { start_pos: 0, char_shape_id: id }] + a0);
            (before, right)
        },
        None => (before, after),
    }
}

/// Cutting a paragraph loses no text: the two parts joined give the text
/// back, and the cut lies at `offset` or at the end of the text.
pub proof fn lemma_parts_rejoin(a: Paragraph, left: Paragraph, right: Paragraph, offset: int)
    requires
        0 <= offset,
        is_left_part(a, left, offset),
        is_right_part(a, right, offset),
    ensures
        left.text@ + right.text@ == a.text@,
        left.text@.len() == (if offset < a.text@.len() { offset } else { a.text@.len() as int }),
{
    assert(left.text@ + right.text@ =~= a.text@);
}

impl Paragraph {
    /// Cuts the paragraph at the caret `char_offset` (at the end of the text
    /// when the caret lies beyond it): this paragraph keeps the part before
    /// the cut and its controls; the part from the cut on is returned.
    pub fn split_at(&mut self, char_offset: usize) -> (right: Paragraph)
        ensures
            is_left_part(*old(self), *final(self), char_offset as int),
            is_right_part(*old(self), right, char_offset as int),
    {
        let n = self.text.as_str().unicode_len();
        let k = if char_offset < n { char_offset } else { n };
        let left_text = self.text.as_str().substring_char(0, k).to_owned();
        let right_text = self.text.as_str().substring_char(k, n).to_owned();
        let (before, right_shapes) = split_runs(&self.char_shapes, k);
        self.text = left_text;
        self.char_count = sat_u32_of(k);
        self.char_shapes = before;
        Paragraph {
            text: right_text,
            char_count: sat_u32_of(n - k),
            para_shape_id: self.para_shape_id,
            style_id: self.style_id,
            char_shapes: right_shapes,
            controls: Vec::new(),
        }
    }
}

/// A section of paragraphs.
#[derive(Debug, Default)]
pub struct Section {
    pub paragraphs: Vec<Paragraph>,
    /// The raw section stream, while it still matches the paragraphs.
    pub raw_stream: Option<Vec<u8>>,
}

/// A document: its definitions and sections.
#[derive(Debug, Default)]
pub struct Document {
    pub doc_info: DocInfo,
    pub sections: Vec<Section>,
}

} // verus!
