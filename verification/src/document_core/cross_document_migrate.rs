//! Moving paragraphs between two document IRs: the `DocInfo` definitions
//! that the paragraphs refer to are merged into the destination, and the
//! paragraphs' references are rewritten to the destination IDs.
//!
//! Definitions are merged in dependency order: border fills, then character
//! shapes and paragraph shapes (which refer to border fills), then styles
//! (which refer to both shapes). Character and paragraph shapes are reused
//! when an equal one exists; border fills and styles are always appended.

use std::collections::HashMap;
use vstd::prelude::*;
use crate::model::{BorderFill, CharShape, ParaShape, Style, DocInfo, Paragraph, CharShapeRef, Control, Table,
    TableZone, Cell, Caption, CharOverlap, Header, Footer, Footnote, Endnote, Document, Section, cut_point,
    CommonObjAttr,
    is_left_part, is_right_part};
use crate::error::HwpError;
use crate::decimal::{decimal_chars, decimal_string};
use super::{DocumentCore, DocumentEvent};
use super::paste_in_document::edit_marked;

verus! {

/// Source ID to destination ID for each of the four definition kinds.
#[derive(Debug)]
pub struct IdRemap {
    pub border_fill: HashMap<u16, u16>,
    pub char_shape: HashMap<u32, u32>,
    pub para_shape: HashMap<u16, u16>,
    pub style: HashMap<u8, u8>,
}

/// The four mappings of an `IdRemap`.
pub struct MigrateRemapView {
    pub border_fill: Map<u16, u16>,
    pub char_shape: Map<u32, u32>,
    pub para_shape: Map<u16, u16>,
    pub style: Map<u8, u8>,
}

impl View for IdRemap {
    type V = MigrateRemapView;

    open spec fn view(&self) -> MigrateRemapView {
        MigrateRemapView {
            border_fill: self.border_fill@,
            char_shape: self.char_shape@,
            para_shape: self.para_shape@,
            style: self.style@,
        }
    }
}

impl IdRemap {
    /// A mapping with no entries.
    pub fn new() -> (r: Self)
        ensures
            r@.border_fill == Map::<u16, u16>::empty(),
            r@.char_shape == Map::<u32, u32>::empty(),
            r@.para_shape == Map::<u16, u16>::empty(),
            r@.style == Map::<u8, u8>::empty(),
    {
        IdRemap {
            border_fill: HashMap::new(),
            char_shape: HashMap::new(),
            para_shape: HashMap::new(),
            style: HashMap::new(),
        }
    }
}

impl Default for IdRemap {
    fn default() -> (r: Self)
        ensures
            r@.border_fill == Map::<u16, u16>::empty(),
            r@.char_shape == Map::<u32, u32>::empty(),
            r@.para_shape == Map::<u16, u16>::empty(),
            r@.style == Map::<u8, u8>::empty(),
    {
        IdRemap::new()
    }
}

/// `m[k]` when mapped, else `k` itself.
pub open spec fn map_or<K>(m: Map<K, K>, k: K) -> K {
    if m.contains_key(k) {
        m[k]
    } else {
        k
    }
}

/// Equal character shapes.
pub open spec fn same_char_shape(a: CharShape, b: CharShape) -> bool {
    a.font_ids@ == b.font_ids@ && a.border_fill_id == b.border_fill_id
}

/// Equal paragraph shapes.
pub open spec fn same_para_shape(a: ParaShape, b: ParaShape) -> bool {
    a.margin_left == b.margin_left && a.border_fill_id == b.border_fill_id
}

/// The first index of a character shape equal to `x` in `d`.
pub open spec fn first_char_shape(d: Seq<CharShape>, x: CharShape) -> Option<int>
    decreases d.len(),
{
    if d.len() == 0 {
        None
    } else {
        match first_char_shape(d.drop_last(), x) {
            Some(i) => Some(i),
            None => if same_char_shape(d.last(), x) {
                Some(d.len() - 1)
            } else {
                None
            },
        }
    }
}

/// The first index of a paragraph shape equal to `x` in `d`.
pub open spec fn first_para_shape(d: Seq<ParaShape>, x: ParaShape) -> Option<int>
    decreases d.len(),
{
    if d.len() == 0 {
        None
    } else {
        match first_para_shape(d.drop_last(), x) {
            Some(i) => Some(i),
            None => if same_para_shape(d.last(), x) {
                Some(d.len() - 1)
            } else {
                None
            },
        }
    }
}

/// The border-fill mapping of `count` source border fills appended to a
/// destination that had `base` of them: source `i` becomes `base + i`
/// (both as `u16`).
pub open spec fn border_fill_map(base: nat, count: nat) -> Map<u16, u16>
    decreases count,
{
    if count == 0 {
        Map::empty()
    } else {
        border_fill_map(base, (count - 1) as nat).insert(((count - 1) as int) as u16, ((base + count - 1) as int) as u16)
    }
}

/// A source character shape with its border-fill reference mapped.
pub open spec fn adjust_char_shape(cs: CharShape, bf: Map<u16, u16>) -> CharShape {
    CharShape { border_fill_id: map_or(bf, cs.border_fill_id), ..cs }
}

/// A source paragraph shape with its border-fill reference mapped.
pub open spec fn adjust_para_shape(ps: ParaShape, bf: Map<u16, u16>) -> ParaShape {
    ParaShape { border_fill_id: map_or(bf, ps.border_fill_id), ..ps }
}

/// The destination character shapes and the mapping after merging the first
/// `k` source character shapes: each is reused where an equal one exists,
/// else appended.
pub open spec fn merge_char_shapes(dst: Seq<CharShape>, src: Seq<CharShape>, bf: Map<u16, u16>, k: nat) -> (Seq<CharShape>, Map<u32, u32>)
    decreases k,
{
    if k == 0 {
        (dst, Map::empty())
    } else {
        let (d, m) = merge_char_shapes(dst, src, bf, (k - 1) as nat);
        let a = adjust_char_shape(src[k - 1], bf);
        match first_char_shape(d, a) {
            Some(j) => (d, m.insert(((k - 1) as int) as u32, j as u32)),
            None => (d.push(a), m.insert(((k - 1) as int) as u32, (d.len() as int) as u32)),
        }
    }
}

/// The destination paragraph shapes and the mapping after merging the first
/// `k` source paragraph shapes.
pub open spec fn merge_para_shapes(dst: Seq<ParaShape>, src: Seq<ParaShape>, bf: Map<u16, u16>, k: nat) -> (Seq<ParaShape>, Map<u16, u16>)
    decreases k,
{
    if k == 0 {
        (dst, Map::empty())
    } else {
        let (d, m) = merge_para_shapes(dst, src, bf, (k - 1) as nat);
        let a = adjust_para_shape(src[k - 1], bf);
        match first_para_shape(d, a) {
            Some(j) => (d, m.insert(((k - 1) as int) as u16, j as u16)),
            None => (d.push(a), m.insert(((k - 1) as int) as u16, (d.len() as int) as u16)),
        }
    }
}

/// A source style with its shape references mapped (the character-shape ID
/// goes through the `u32` mapping and back to `u16`).
pub open spec fn adjust_style(st: Style, ps: Map<u16, u16>, cs: Map<u32, u32>) -> Style {
    Style {
        para_shape_id: map_or(ps, st.para_shape_id),
        char_shape_id: (map_or(cs, st.char_shape_id as u32) as int) as u16,
        ..st
    }
}

/// The style mapping of `count` source styles appended after `base`
/// destination styles (both as `u8`).
pub open spec fn style_map(base: nat, count: nat) -> Map<u8, u8>
    decreases count,
{
    if count == 0 {
        Map::empty()
    } else {
        style_map(base, (count - 1) as nat).insert(((count - 1) as int) as u8, ((base + count - 1) as int) as u8)
    }
}

/// The merge of `src` into `dst` and its mapping.
pub open spec fn merged_doc_info(src: DocInfo, dst: DocInfo) -> (Seq<BorderFill>, Seq<CharShape>, Seq<ParaShape>, Seq<Style>) {
    let bf = border_fill_map(dst.border_fills@.len(), src.border_fills@.len());
    let (cs, csm) = merge_char_shapes(dst.char_shapes@, src.char_shapes@, bf, src.char_shapes@.len());
    let (ps, psm) = merge_para_shapes(dst.para_shapes@, src.para_shapes@, bf, src.para_shapes@.len());
    (
        dst.border_fills@ + src.border_fills@,
        cs,
        ps,
        dst.styles@ + src.styles@.map_values(|st: Style| adjust_style(st, psm, csm)),
    )
}

pub open spec fn merged_remap(src: DocInfo, dst: DocInfo) -> MigrateRemapView {
    let bf = border_fill_map(dst.border_fills@.len(), src.border_fills@.len());
    MigrateRemapView {
        border_fill: bf,
        char_shape: merge_char_shapes(dst.char_shapes@, src.char_shapes@, bf, src.char_shapes@.len()).1,
        para_shape: merge_para_shapes(dst.para_shapes@, src.para_shapes@, bf, src.para_shapes@.len()).1,
        style: style_map(dst.styles@.len(), src.styles@.len()),
    }
}

fn same_char_shape_exec(a: &CharShape, b: &CharShape) -> (r: bool)
    ensures
        r == same_char_shape(*a, *b),
{
    if a.border_fill_id != b.border_fill_id {
        return false;
    }
    let mut k: usize = 0;
    while k < 7
        invariant
            k <= 7,
            a.font_ids@.len() == 7,
            b.font_ids@.len() == 7,
            forall|j: int| 0 <= j < k ==> a.font_ids@[j] == b.font_ids@[j],
        decreases 7 - k,
    {
        if a.font_ids[k] != b.font_ids[k] {
            return false;
        }
        k = k + 1;
    }
    assert(a.font_ids@ =~= b.font_ids@);
    true
}

fn find_or_append_char_shape(dst: &mut DocInfo, src: CharShape) -> (r: u32)
    ensures
        final(dst).border_fills == old(dst).border_fills,
        final(dst).para_shapes == old(dst).para_shapes,
        final(dst).styles == old(dst).styles,
        final(dst).raw_stream_dirty == old(dst).raw_stream_dirty,
        final(dst).bin_data_list == old(dst).bin_data_list,
        match first_char_shape(old(dst).char_shapes@, src) {
            Some(j) => final(dst).char_shapes@ == old(dst).char_shapes@ && r == j as u32,
            None => final(dst).char_shapes@ == old(dst).char_shapes@.push(src) && r
                == (old(dst).char_shapes@.len() as int) as u32,
        },
{
    let n = dst.char_shapes.len();
    let mut i: usize = 0;
    while i < n
        invariant
            n == dst.char_shapes@.len(),
            i <= n,
            first_char_shape(dst.char_shapes@.subrange(0, i as int), src) is None,
        decreases n - i,
    {
        let ghost d = dst.char_shapes@;
        assert(d.subrange(0, i + 1).drop_last() =~= d.subrange(0, i as int));
        if same_char_shape_exec(&dst.char_shapes[i], &src) {
            proof {
                lemma_first_char_shape_prefix(d, src, i as int);
            }
            return i as u32;
        }
        i = i + 1;
    }
    assert(dst.char_shapes@.subrange(0, n as int) =~= dst.char_shapes@);
    dst.char_shapes.push(src);
    (dst.char_shapes.len() - 1) as u32
}

proof fn lemma_first_char_shape_prefix(d: Seq<CharShape>, x: CharShape, i: int)
    requires
        0 <= i < d.len(),
        first_char_shape(d.subrange(0, i), x) is None,
        same_char_shape(d[i], x),
    ensures
        first_char_shape(d, x) == Some(i),
    decreases d.len(),
{
    if i < d.len() - 1 {
        assert(d.drop_last().subrange(0, i) =~= d.subrange(0, i));
        lemma_first_char_shape_prefix(d.drop_last(), x, i);
    } else {
        assert(d.drop_last() =~= d.subrange(0, i));
    }
}

proof fn lemma_first_para_shape_prefix(d: Seq<ParaShape>, x: ParaShape, i: int)
    requires
        0 <= i < d.len(),
        first_para_shape(d.subrange(0, i), x) is None,
        same_para_shape(d[i], x),
    ensures
        first_para_shape(d, x) == Some(i),
    decreases d.len(),
{
    if i < d.len() - 1 {
        assert(d.drop_last().subrange(0, i) =~= d.subrange(0, i));
        lemma_first_para_shape_prefix(d.drop_last(), x, i);
    } else {
        assert(d.drop_last() =~= d.subrange(0, i));
    }
}

fn find_or_append_para_shape(dst: &mut DocInfo, src: ParaShape) -> (r: u16)
    ensures
        final(dst).border_fills == old(dst).border_fills,
        final(dst).char_shapes == old(dst).char_shapes,
        final(dst).styles == old(dst).styles,
        final(dst).raw_stream_dirty == old(dst).raw_stream_dirty,
        final(dst).bin_data_list == old(dst).bin_data_list,
        match first_para_shape(old(dst).para_shapes@, src) {
            Some(j) => final(dst).para_shapes@ == old(dst).para_shapes@ && r == j as u16,
            None => final(dst).para_shapes@ == old(dst).para_shapes@.push(src) && r
                == (old(dst).para_shapes@.len() as int) as u16,
        },
{
    let n = dst.para_shapes.len();
    let mut i: usize = 0;
    while i < n
        invariant
            n == dst.para_shapes@.len(),
            i <= n,
            first_para_shape(dst.para_shapes@.subrange(0, i as int), src) is None,
        decreases n - i,
    {
        let ghost d = dst.para_shapes@;
        assert(d.subrange(0, i + 1).drop_last() =~= d.subrange(0, i as int));
        let p = dst.para_shapes[i];
        if p.margin_left == src.margin_left && p.border_fill_id == src.border_fill_id {
            proof {
                lemma_first_para_shape_prefix(d, src, i as int);
            }
            return i as u16;
        }
        i = i + 1;
    }
    assert(dst.para_shapes@.subrange(0, n as int) =~= dst.para_shapes@);
    dst.para_shapes.push(src);
    (dst.para_shapes.len() - 1) as u16
}

fn append_border_fill(dst: &mut DocInfo, src: BorderFill) -> (r: u16)
    ensures
        final(dst).char_shapes == old(dst).char_shapes,
        final(dst).para_shapes == old(dst).para_shapes,
        final(dst).styles == old(dst).styles,
        final(dst).raw_stream_dirty == old(dst).raw_stream_dirty,
        final(dst).bin_data_list == old(dst).bin_data_list,
        final(dst).border_fills@ == old(dst).border_fills@.push(src),
        r == (old(dst).border_fills@.len() as int) as u16,
{
    dst.border_fills.push(src);
    (dst.border_fills.len() - 1) as u16
}

fn append_style(dst: &mut DocInfo, src: Style) -> (r: u8)
    ensures
        final(dst).char_shapes == old(dst).char_shapes,
        final(dst).para_shapes == old(dst).para_shapes,
        final(dst).border_fills == old(dst).border_fills,
        final(dst).raw_stream_dirty == old(dst).raw_stream_dirty,
        final(dst).bin_data_list == old(dst).bin_data_list,
        final(dst).styles@ == old(dst).styles@.push(src),
        r == (old(dst).styles@.len() as int) as u8,
{
    dst.styles.push(src);
    (dst.styles.len() - 1) as u8
}

fn remap_border_fill_id(remap: &IdRemap, src_id: u16) -> (r: u16)
    ensures
        r == map_or(remap@.border_fill, src_id),
{
    match remap.border_fill.get(&src_id) {
        Some(v) => *v,
        None => src_id,
    }
}

fn remap_para_shape_id(remap: &IdRemap, src_id: u16) -> (r: u16)
    ensures
        r == map_or(remap@.para_shape, src_id),
{
    match remap.para_shape.get(&src_id) {
        Some(v) => *v,
        None => src_id,
    }
}

/// The character-shape mapping applied to a `u16` reference (the mapping is
/// keyed by `u32`; the result is cut back to `u16`).
fn remap_char_shape_id_u16(remap: &IdRemap, src_id: u16) -> (r: u16)
    ensures
        r == (map_or(remap@.char_shape, src_id as u32) as int) as u16,
{
    let k = src_id as u32;
    let new_u32 = match remap.char_shape.get(&k) {
        Some(v) => *v,
        None => k,
    };
    new_u32 as u16
}

/// Merges the definitions of `src` into `dst` (border fills appended,
/// character and paragraph shapes reused when equal or appended, styles
/// appended; references between them mapped on the way) and returns the
/// mapping from source to destination IDs.
pub fn remap_definitions(src: &DocInfo, dst: &mut DocInfo) -> (r: IdRemap)
    ensures
        merged_doc_info(*src, *old(dst)) == (final(dst).border_fills@, final(dst).char_shapes@,
            final(dst).para_shapes@, final(dst).styles@),
        r@ == merged_remap(*src, *old(dst)),
        final(dst).raw_stream_dirty == old(dst).raw_stream_dirty,
        final(dst).bin_data_list == old(dst).bin_data_list,
{
    let ghost d0 = *dst;
    let mut remap = IdRemap::new();

    let nbf = src.border_fills.len();
    let mut i: usize = 0;
    while i < nbf
        invariant
            nbf == src.border_fills@.len(),
            i <= nbf,
            dst.char_shapes == d0.char_shapes,
            dst.para_shapes == d0.para_shapes,
            dst.styles == d0.styles,
            dst.raw_stream_dirty == d0.raw_stream_dirty,
            dst.bin_data_list == d0.bin_data_list,
            dst.border_fills@ == d0.border_fills@ + src.border_fills@.subrange(0, i as int),
            remap@.border_fill == border_fill_map(d0.border_fills@.len(), i as nat),
            remap@.char_shape == Map::<u32, u32>::empty(),
            remap@.para_shape == Map::<u16, u16>::empty(),
            remap@.style == Map::<u8, u8>::empty(),
        decreases nbf - i,
    {
        let target = append_border_fill(dst, src.border_fills[i]);
        remap.border_fill.insert(i as u16, target);
        i = i + 1;
        assert(dst.border_fills@ =~= d0.border_fills@ + src.border_fills@.subrange(0, i as int));
    }
    assert(src.border_fills@.subrange(0, nbf as int) =~= src.border_fills@);
    let ghost bf = remap@.border_fill;

    let ncs = src.char_shapes.len();
    let mut i: usize = 0;
    while i < ncs
        invariant
            ncs == src.char_shapes@.len(),
            i <= ncs,
            bf == remap@.border_fill,
            bf == border_fill_map(d0.border_fills@.len(), src.border_fills@.len()),
            dst.border_fills@ == d0.border_fills@ + src.border_fills@,
            dst.para_shapes == d0.para_shapes,
            dst.styles == d0.styles,
            dst.raw_stream_dirty == d0.raw_stream_dirty,
            dst.bin_data_list == d0.bin_data_list,
            (dst.char_shapes@, remap@.char_shape) == merge_char_shapes(d0.char_shapes@, src.char_shapes@, bf, i as nat),
            remap@.para_shape == Map::<u16, u16>::empty(),
            remap@.style == Map::<u8, u8>::empty(),
        decreases ncs - i,
    {
        let mut adjusted = src.char_shapes[i];
        adjusted.border_fill_id = remap_border_fill_id(&remap, adjusted.border_fill_id);
        assert(adjusted == adjust_char_shape(src.char_shapes@[i as int], bf));
        let target = find_or_append_char_shape(dst, adjusted);
        remap.char_shape.insert(i as u32, target);
        i = i + 1;
    }
    let ghost csm = remap@.char_shape;

    let nps = src.para_shapes.len();
    let mut i: usize = 0;
    while i < nps
        invariant
            nps == src.para_shapes@.len(),
            i <= nps,
            bf == remap@.border_fill,
            csm == remap@.char_shape,
            bf == border_fill_map(d0.border_fills@.len(), src.border_fills@.len()),
            (dst.char_shapes@, csm) == merge_char_shapes(d0.char_shapes@, src.char_shapes@, bf, src.char_shapes@.len()),
            dst.border_fills@ == d0.border_fills@ + src.border_fills@,
            dst.styles == d0.styles,
            dst.raw_stream_dirty == d0.raw_stream_dirty,
            dst.bin_data_list == d0.bin_data_list,
            (dst.para_shapes@, remap@.para_shape) == merge_para_shapes(d0.para_shapes@, src.para_shapes@, bf, i as nat),
            remap@.style == Map::<u8, u8>::empty(),
        decreases nps - i,
    {
        let mut adjusted = src.para_shapes[i];
        adjusted.border_fill_id = remap_border_fill_id(&remap, adjusted.border_fill_id);
        assert(adjusted == adjust_para_shape(src.para_shapes@[i as int], bf));
        let target = find_or_append_para_shape(dst, adjusted);
        remap.para_shape.insert(i as u16, target);
        i = i + 1;
    }
    let ghost psm = remap@.para_shape;

    let nst = src.styles.len();
    let mut i: usize = 0;
    while i < nst
        invariant
            nst == src.styles@.len(),
            i <= nst,
            bf == remap@.border_fill,
            csm == remap@.char_shape,
            psm == remap@.para_shape,
            bf == border_fill_map(d0.border_fills@.len(), src.border_fills@.len()),
            (dst.char_shapes@, csm) == merge_char_shapes(d0.char_shapes@, src.char_shapes@, bf, src.char_shapes@.len()),
            (dst.para_shapes@, psm) == merge_para_shapes(d0.para_shapes@, src.para_shapes@, bf, src.para_shapes@.len()),
            dst.border_fills@ == d0.border_fills@ + src.border_fills@,
            dst.raw_stream_dirty == d0.raw_stream_dirty,
            dst.bin_data_list == d0.bin_data_list,
            dst.styles@ == d0.styles@ + src.styles@.subrange(0, i as int).map_values(|st: Style| adjust_style(st, psm, csm)),
            remap@.style == style_map(d0.styles@.len(), i as nat),
        decreases nst - i,
    {
        let s = &src.styles[i];
        let adjusted = Style {
            local_name: s.local_name.clone(),
            style_type: s.style_type,
            para_shape_id: remap_para_shape_id(&remap, s.para_shape_id),
            char_shape_id: remap_char_shape_id_u16(&remap, s.char_shape_id),
        };
        assert(adjusted == adjust_style(src.styles@[i as int], psm, csm));
        let target = append_style(dst, adjusted);
        remap.style.insert(i as u8, target);
        i = i + 1;
        assert(dst.styles@ =~= d0.styles@ + src.styles@.subrange(0, i as int).map_values(|st: Style| adjust_style(st, psm, csm)));
    }
    assert(src.styles@.subrange(0, nst as int) =~= src.styles@);
    remap
}

// ───────────────────────────── Laws of the merge ─────────────────────────────

proof fn lemma_first_char_shape_found(d: Seq<CharShape>, x: CharShape)
    ensures
        first_char_shape(d, x) matches Some(j) ==> 0 <= j < d.len() && same_char_shape(d[j], x),
    decreases d.len(),
{
    if d.len() > 0 {
        lemma_first_char_shape_found(d.drop_last(), x);
    }
}

proof fn lemma_first_para_shape_found(d: Seq<ParaShape>, x: ParaShape)
    ensures
        first_para_shape(d, x) matches Some(j) ==> 0 <= j < d.len() && same_para_shape(d[j], x),
    decreases d.len(),
{
    if d.len() > 0 {
        lemma_first_para_shape_found(d.drop_last(), x);
    }
}

#[verifier::spinoff_prover]
proof fn lemma_merge_char_shapes(dst: Seq<CharShape>, src: Seq<CharShape>, bf: Map<u16, u16>, k: nat)
    requires
        k <= src.len(),
        dst.len() + k <= 0x1_0000_0000,
    ensures
        ({
            let (d, m) = merge_char_shapes(dst, src, bf, k);
            &&& dst.len() <= d.len() <= dst.len() + k
            &&& d.subrange(0, dst.len() as int) == dst
            &&& forall|key: u32| m.contains_key(key) ==> key < k
            &&& forall|i: int| 0 <= i < k ==> {
                &&& #[trigger] m.contains_key(i as u32)
                &&& m[i as u32] < d.len()
                &&& same_char_shape(d[m[i as u32] as int], adjust_char_shape(src[i], bf))
            }
        }),
    decreases k,
{
    if k == 0 {
        assert(dst.subrange(0, dst.len() as int) =~= dst);
    } else {
        lemma_merge_char_shapes(dst, src, bf, (k - 1) as nat);
        let (d, m) = merge_char_shapes(dst, src, bf, (k - 1) as nat);
        let a = adjust_char_shape(src[k - 1], bf);
        lemma_first_char_shape_found(d, a);
        let (d2, m2) = merge_char_shapes(dst, src, bf, k);
        if first_char_shape(d, a) is None {
            assert(d2.subrange(0, dst.len() as int) =~= d.subrange(0, dst.len() as int));
        }
        assert forall|i: int| 0 <= i < k implies {
            &&& #[trigger] m2.contains_key(i as u32)
            &&& m2[i as u32] < d2.len()
            &&& same_char_shape(d2[m2[i as u32] as int], adjust_char_shape(src[i], bf))
        } by {
            if i < k - 1 {
                assert(m.contains_key(i as u32));
                assert((i as u32) != ((k - 1) as int) as u32);
                if first_char_shape(d, a) is None {
                    assert(d2[m[i as u32] as int] == d[m[i as u32] as int]);
                }
            }
        }
    }
}

#[verifier::spinoff_prover]
proof fn lemma_merge_para_shapes(dst: Seq<ParaShape>, src: Seq<ParaShape>, bf: Map<u16, u16>, k: nat)
    requires
        k <= src.len(),
        dst.len() + k <= 0x1_0000,
    ensures
        ({
            let (d, m) = merge_para_shapes(dst, src, bf, k);
            &&& dst.len() <= d.len() <= dst.len() + k
            &&& d.subrange(0, dst.len() as int) == dst
            &&& forall|key: u16| m.contains_key(key) ==> key < k
            &&& forall|i: int| 0 <= i < k ==> {
                &&& #[trigger] m.contains_key(i as u16)
                &&& m[i as u16] < d.len()
                &&& same_para_shape(d[m[i as u16] as int], adjust_para_shape(src[i], bf))
            }
        }),
    decreases k,
{
    if k == 0 {
        assert(dst.subrange(0, dst.len() as int) =~= dst);
    } else {
        lemma_merge_para_shapes(dst, src, bf, (k - 1) as nat);
        let (d, m) = merge_para_shapes(dst, src, bf, (k - 1) as nat);
        let a = adjust_para_shape(src[k - 1], bf);
        lemma_first_para_shape_found(d, a);
        let (d2, m2) = merge_para_shapes(dst, src, bf, k);
        if first_para_shape(d, a) is None {
            assert(d2.subrange(0, dst.len() as int) =~= d.subrange(0, dst.len() as int));
        }
        assert forall|i: int| 0 <= i < k implies {
            &&& #[trigger] m2.contains_key(i as u16)
            &&& m2[i as u16] < d2.len()
            &&& same_para_shape(d2[m2[i as u16] as int], adjust_para_shape(src[i], bf))
        } by {
            if i < k - 1 {
                assert(m.contains_key(i as u16));
                assert((i as u16) != ((k - 1) as int) as u16);
                if first_para_shape(d, a) is None {
                    assert(d2[m[i as u16] as int] == d[m[i as u16] as int]);
                }
            }
        }
    }
}

proof fn lemma_border_fill_map(base: nat, count: nat)
    requires
        base + count <= 0x1_0000,
    ensures
        forall|key: u16| border_fill_map(base, count).contains_key(key) ==> key < count,
        forall|i: int| 0 <= i < count ==> #[trigger] border_fill_map(base, count).contains_key(i as u16)
            && border_fill_map(base, count)[i as u16] == base + i,
    decreases count,
{
    if count > 0 {
        lemma_border_fill_map(base, (count - 1) as nat);
        let m = border_fill_map(base, (count - 1) as nat);
        assert forall|i: int| 0 <= i < count implies #[trigger] border_fill_map(base, count).contains_key(i as u16)
            && border_fill_map(base, count)[i as u16] == base + i by {
            if i < count - 1 {
                assert((i as u16) != ((count - 1) as int) as u16);
                assert(m.contains_key(i as u16));
            }
        }
    }
}

proof fn lemma_style_map(base: nat, count: nat)
    requires
        base + count <= 0x100,
    ensures
        forall|key: u8| style_map(base, count).contains_key(key) ==> key < count,
        forall|i: int| 0 <= i < count ==> #[trigger] style_map(base, count).contains_key(i as u8)
            && style_map(base, count)[i as u8] == base + i,
    decreases count,
{
    if count > 0 {
        lemma_style_map(base, (count - 1) as nat);
        let m = style_map(base, (count - 1) as nat);
        assert forall|i: int| 0 <= i < count implies #[trigger] style_map(base, count).contains_key(i as u8)
            && style_map(base, count)[i as u8] == base + i by {
            if i < count - 1 {
                assert((i as u8) != ((count - 1) as int) as u8);
                assert(m.contains_key(i as u8));
            }
        }
    }
}

/// Merging never changes the definitions the destination already had: every
/// list after the merge starts with the list before it.
pub proof fn lemma_merge_keeps_existing(src: DocInfo, dst: DocInfo)
    ensures
        ({
            let (bfs, css, pss, sts) = merged_doc_info(src, dst);
            &&& bfs.subrange(0, dst.border_fills@.len() as int) == dst.border_fills@
            &&& css.subrange(0, dst.char_shapes@.len() as int) == dst.char_shapes@
            &&& pss.subrange(0, dst.para_shapes@.len() as int) == dst.para_shapes@
            &&& sts.subrange(0, dst.styles@.len() as int) == dst.styles@
        }),
{
    let bf = border_fill_map(dst.border_fills@.len(), src.border_fills@.len());
    lemma_merge_prefix_cs(dst.char_shapes@, src.char_shapes@, bf, src.char_shapes@.len());
    lemma_merge_prefix_ps(dst.para_shapes@, src.para_shapes@, bf, src.para_shapes@.len());
    let (bfs, css, pss, sts) = merged_doc_info(src, dst);
    assert(bfs.subrange(0, dst.border_fills@.len() as int) =~= dst.border_fills@);
    assert(sts.subrange(0, dst.styles@.len() as int) =~= dst.styles@);
}

proof fn lemma_merge_prefix_cs(dst: Seq<CharShape>, src: Seq<CharShape>, bf: Map<u16, u16>, k: nat)
    ensures
        merge_char_shapes(dst, src, bf, k).0.len() >= dst.len(),
        merge_char_shapes(dst, src, bf, k).0.subrange(0, dst.len() as int) == dst,
    decreases k,
{
    if k == 0 {
        assert(dst.subrange(0, dst.len() as int) =~= dst);
    } else {
        lemma_merge_prefix_cs(dst, src, bf, (k - 1) as nat);
        let d = merge_char_shapes(dst, src, bf, (k - 1) as nat).0;
        let d2 = merge_char_shapes(dst, src, bf, k).0;
        assert(d2.subrange(0, dst.len() as int) =~= d.subrange(0, dst.len() as int));
    }
}

proof fn lemma_merge_prefix_ps(dst: Seq<ParaShape>, src: Seq<ParaShape>, bf: Map<u16, u16>, k: nat)
    ensures
        merge_para_shapes(dst, src, bf, k).0.len() >= dst.len(),
        merge_para_shapes(dst, src, bf, k).0.subrange(0, dst.len() as int) == dst,
    decreases k,
{
    if k == 0 {
        assert(dst.subrange(0, dst.len() as int) =~= dst);
    } else {
        lemma_merge_prefix_ps(dst, src, bf, (k - 1) as nat);
        let d = merge_para_shapes(dst, src, bf, (k - 1) as nat).0;
        let d2 = merge_para_shapes(dst, src, bf, k).0;
        assert(d2.subrange(0, dst.len() as int) =~= d.subrange(0, dst.len() as int));
    }
}

/// Every source definition is mapped to a destination definition equal to it
/// (with its own references mapped): `dst[remap[i]]` is `src[i]` for border
/// fills, an equal shape for character and paragraph shapes, and the adjusted
/// style for styles, as long as the merged lists fit their ID types.
#[verifier::spinoff_prover]
pub proof fn lemma_merge_maps_to_equal_definitions(src: DocInfo, dst: DocInfo)
    requires
        dst.border_fills@.len() + src.border_fills@.len() <= 0x1_0000,
        dst.char_shapes@.len() + src.char_shapes@.len() <= 0x1_0000_0000,
        dst.para_shapes@.len() + src.para_shapes@.len() <= 0x1_0000,
        dst.styles@.len() + src.styles@.len() <= 0x100,
    ensures
        ({
            let (bfs, css, pss, sts) = merged_doc_info(src, dst);
            let rv = merged_remap(src, dst);
            &&& forall|i: int| 0 <= i < src.border_fills@.len() ==> #[trigger] rv.border_fill.contains_key(i as u16)
                && rv.border_fill[i as u16] < bfs.len() && bfs[rv.border_fill[i as u16] as int] == src.border_fills@[i]
            &&& forall|i: int| 0 <= i < src.char_shapes@.len() ==> #[trigger] rv.char_shape.contains_key(i as u32)
                && rv.char_shape[i as u32] < css.len()
                && same_char_shape(css[rv.char_shape[i as u32] as int], adjust_char_shape(src.char_shapes@[i], rv.border_fill))
            &&& forall|i: int| 0 <= i < src.para_shapes@.len() ==> #[trigger] rv.para_shape.contains_key(i as u16)
                && rv.para_shape[i as u16] < pss.len()
                && same_para_shape(pss[rv.para_shape[i as u16] as int], adjust_para_shape(src.para_shapes@[i], rv.border_fill))
            &&& forall|i: int| 0 <= i < src.styles@.len() ==> #[trigger] rv.style.contains_key(i as u8)
                && rv.style[i as u8] < sts.len()
                && sts[rv.style[i as u8] as int] == adjust_style(src.styles@[i], rv.para_shape, rv.char_shape)
        }),
{
    let bf = border_fill_map(dst.border_fills@.len(), src.border_fills@.len());
    lemma_border_fill_map(dst.border_fills@.len(), src.border_fills@.len());
    lemma_merge_char_shapes(dst.char_shapes@, src.char_shapes@, bf, src.char_shapes@.len());
    lemma_merge_para_shapes(dst.para_shapes@, src.para_shapes@, bf, src.para_shapes@.len());
    lemma_style_map(dst.styles@.len(), src.styles@.len());
    let (bfs, css, pss, sts) = merged_doc_info(src, dst);
    let rv = merged_remap(src, dst);
    assert forall|i: int| 0 <= i < src.border_fills@.len() implies #[trigger] rv.border_fill.contains_key(i as u16)
        && rv.border_fill[i as u16] < bfs.len() && bfs[rv.border_fill[i as u16] as int] == src.border_fills@[i] by {
        assert(bfs[dst.border_fills@.len() + i] == src.border_fills@[i]);
    }
    let sm = src.styles@.map_values(|st: Style| adjust_style(st, rv.para_shape, rv.char_shape));
    assert(sts == dst.styles@ + sm);
    assert forall|i: int| 0 <= i < src.styles@.len() implies #[trigger] rv.style.contains_key(i as u8)
        && rv.style[i as u8] < sts.len()
        && sts[rv.style[i as u8] as int] == adjust_style(src.styles@[i], rv.para_shape, rv.char_shape) by {
        assert(sts[dst.styles@.len() + i] == sm[i]);
    }
}

/// Merging an empty `DocInfo` changes nothing and maps nothing.
pub proof fn lemma_merge_empty_source(src: DocInfo, dst: DocInfo)
    requires
        src.border_fills@.len() == 0,
        src.char_shapes@.len() == 0,
        src.para_shapes@.len() == 0,
        src.styles@.len() == 0,
    ensures
        merged_doc_info(src, dst) == (dst.border_fills@, dst.char_shapes@, dst.para_shapes@, dst.styles@),
        merged_remap(src, dst).border_fill == Map::<u16, u16>::empty(),
        merged_remap(src, dst).char_shape == Map::<u32, u32>::empty(),
        merged_remap(src, dst).para_shape == Map::<u16, u16>::empty(),
        merged_remap(src, dst).style == Map::<u8, u8>::empty(),
{
    assert(dst.border_fills@ + src.border_fills@ =~= dst.border_fills@);
    assert(dst.styles@ + src.styles@.map_values(|st: Style| adjust_style(st, Map::empty(), Map::empty())) =~= dst.styles@);
}

/// Character and paragraph shapes are reused: when every source shape (with
/// its border fill mapped) already has an equal shape in the destination,
/// merging adds no shape of that kind.
pub proof fn lemma_merge_reuses_equal_shapes(src: DocInfo, dst: DocInfo)
    ensures
        ({
            let bf = border_fill_map(dst.border_fills@.len(), src.border_fills@.len());
            let (_, css, pss, _) = merged_doc_info(src, dst);
            &&& (forall|i: int| 0 <= i < src.char_shapes@.len()
                ==> #[trigger] first_char_shape(dst.char_shapes@, adjust_char_shape(src.char_shapes@[i], bf)) is Some)
                ==> css == dst.char_shapes@
            &&& (forall|i: int| 0 <= i < src.para_shapes@.len()
                ==> #[trigger] first_para_shape(dst.para_shapes@, adjust_para_shape(src.para_shapes@[i], bf)) is Some)
                ==> pss == dst.para_shapes@
        }),
{
    let bf = border_fill_map(dst.border_fills@.len(), src.border_fills@.len());
    if forall|i: int| 0 <= i < src.char_shapes@.len()
        ==> #[trigger] first_char_shape(dst.char_shapes@, adjust_char_shape(src.char_shapes@[i], bf)) is Some {
        lemma_reuse_cs(dst.char_shapes@, src.char_shapes@, bf, src.char_shapes@.len());
    }
    if forall|i: int| 0 <= i < src.para_shapes@.len()
        ==> #[trigger] first_para_shape(dst.para_shapes@, adjust_para_shape(src.para_shapes@[i], bf)) is Some {
        lemma_reuse_ps(dst.para_shapes@, src.para_shapes@, bf, src.para_shapes@.len());
    }
}

proof fn lemma_reuse_cs(dst: Seq<CharShape>, src: Seq<CharShape>, bf: Map<u16, u16>, k: nat)
    requires
        k <= src.len(),
        forall|i: int| 0 <= i < src.len() ==> #[trigger] first_char_shape(dst, adjust_char_shape(src[i], bf)) is Some,
    ensures
        merge_char_shapes(dst, src, bf, k).0 == dst,
    decreases k,
{
    if k > 0 {
        lemma_reuse_cs(dst, src, bf, (k - 1) as nat);
        assert(first_char_shape(dst, adjust_char_shape(src[k - 1], bf)) is Some);
    }
}

proof fn lemma_reuse_ps(dst: Seq<ParaShape>, src: Seq<ParaShape>, bf: Map<u16, u16>, k: nat)
    requires
        k <= src.len(),
        forall|i: int| 0 <= i < src.len() ==> #[trigger] first_para_shape(dst, adjust_para_shape(src[i], bf)) is Some,
    ensures
        merge_para_shapes(dst, src, bf, k).0 == dst,
    decreases k,
{
    if k > 0 {
        lemma_reuse_ps(dst, src, bf, (k - 1) as nat);
        assert(first_para_shape(dst, adjust_para_shape(src[k - 1], bf)) is Some);
    }
}

// ───────────────────────────── Rewriting the references of paragraphs ─────────────────────────────

/// A character-shape run with its shape mapped.
pub open spec fn walked_ref(c: CharShapeRef, rv: MigrateRemapView) -> CharShapeRef {
    CharShapeRef { start_pos: c.start_pos, char_shape_id: map_or(rv.char_shape, c.char_shape_id) }
}

/// A table zone with its border fill mapped.
pub open spec fn walked_zone(z: TableZone, rv: MigrateRemapView) -> TableZone {
    TableZone { border_fill_id: map_or(rv.border_fill, z.border_fill_id), ..z }
}

/// `b` is the paragraph `a` with every reference mapped: its paragraph shape,
/// style and character-shape runs, and inside its controls the tables (table,
/// zone and cell border fills, cell and caption paragraphs), the paragraphs
/// of headers, footers, footnotes and endnotes, and the character shapes of
/// overlapping characters. Everything else is unchanged.
pub open spec fn walked_paragraph(a: Paragraph, b: Paragraph, rv: MigrateRemapView) -> bool
    decreases a,
{
    &&& b.text == a.text
    &&& b.char_count == a.char_count
    &&& b.para_shape_id == map_or(rv.para_shape, a.para_shape_id)
    &&& b.style_id == map_or(rv.style, a.style_id)
    &&& b.char_shapes@ == a.char_shapes@.map_values(|c: CharShapeRef| walked_ref(c, rv))
    &&& b.controls@.len() == a.controls@.len()
    &&& forall|k: int| 0 <= k < a.controls@.len() ==> walked_control(#[trigger] a.controls@[k], b.controls@[k], rv)
}

pub open spec fn walked_paragraphs(a: Seq<Paragraph>, b: Seq<Paragraph>, rv: MigrateRemapView) -> bool
    decreases a,
{
    &&& b.len() == a.len()
    &&& forall|k: int| 0 <= k < a.len() ==> walked_paragraph(#[trigger] a[k], b[k], rv)
}

pub open spec fn walked_control(a: Control, b: Control, rv: MigrateRemapView) -> bool
    decreases a,
{
    match a {
        Control::Table(t) => b matches Control::Table(u) && walked_table(*t, *u, rv),
        Control::Header(h) => b matches Control::Header(g) && walked_paragraphs(h.paragraphs@, g.paragraphs@, rv),
        Control::Footer(h) => b matches Control::Footer(g) && walked_paragraphs(h.paragraphs@, g.paragraphs@, rv),
        Control::Footnote(h) => b matches Control::Footnote(g) && walked_paragraphs(h.paragraphs@, g.paragraphs@, rv),
        Control::Endnote(h) => b matches Control::Endnote(g) && walked_paragraphs(h.paragraphs@, g.paragraphs@, rv),
        Control::CharOverlap(co) => b matches Control::CharOverlap(c2) && c2.chars@ == co.chars@
            && c2.char_shape_ids@ == co.char_shape_ids@.map_values(|id: u32| map_or(rv.char_shape, id)),
        Control::Other(x) => b == Control::Other(x),
    }
}

pub open spec fn walked_table(a: Table, b: Table, rv: MigrateRemapView) -> bool
    decreases a,
{
    &&& b.row_count == a.row_count
    &&& b.col_count == a.col_count
    &&& b.border_fill_id == map_or(rv.border_fill, a.border_fill_id)
    &&& b.attr == a.attr
    &&& b.raw_ctrl_data@ == a.raw_ctrl_data@
    &&& b.common == a.common
    &&& b.zones@ == a.zones@.map_values(|z: TableZone| walked_zone(z, rv))
    &&& b.cells@.len() == a.cells@.len()
    &&& forall|k: int| 0 <= k < a.cells@.len() ==> walked_cell(#[trigger] a.cells@[k], b.cells@[k], rv)
    &&& match a.caption {
        Some(c) => b.caption matches Some(c2) && walked_paragraphs(c.paragraphs@, c2.paragraphs@, rv),
        None => b.caption is None,
    }
}

pub open spec fn walked_cell(a: Cell, b: Cell, rv: MigrateRemapView) -> bool
    decreases a,
{
    &&& b.col == a.col
    &&& b.row == a.row
    &&& b.col_span == a.col_span
    &&& b.row_span == a.row_span
    &&& b.border_fill_id == map_or(rv.border_fill, a.border_fill_id)
    &&& walked_paragraphs(a.paragraphs@, b.paragraphs@, rv)
}

fn empty_paragraph() -> (r: Paragraph)
    ensures
        r.text@.len() == 0,
        r.char_count == 0,
        r.para_shape_id == 0,
        r.style_id == 0,
        r.char_shapes@.len() == 0,
        r.controls@.len() == 0,
{
    Paragraph {
        text: String::new(),
        char_count: 0,
        para_shape_id: 0,
        style_id: 0,
        char_shapes: Vec::new(),
        controls: Vec::new(),
    }
}

fn empty_cell() -> (r: Cell)
    ensures
        r.col == 0,
        r.row == 0,
        r.col_span == 0,
        r.row_span == 0,
        r.border_fill_id == 0,
        r.paragraphs@.len() == 0,
{
    Cell { col: 0, row: 0, col_span: 0, row_span: 0, border_fill_id: 0, paragraphs: Vec::new() }
}

fn remap_style_id(remap: &IdRemap, src_id: u8) -> (r: u8)
    ensures
        r == map_or(remap@.style, src_id),
{
    match remap.style.get(&src_id) {
        Some(v) => *v,
        None => src_id,
    }
}

fn remap_char_shape_id(remap: &IdRemap, src_id: u32) -> (r: u32)
    ensures
        r == map_or(remap@.char_shape, src_id),
{
    match remap.char_shape.get(&src_id) {
        Some(v) => *v,
        None => src_id,
    }
}

fn walk_refs(v: &mut Vec<CharShapeRef>, remap: &IdRemap)
    ensures
        final(v)@ == old(v)@.map_values(|c: CharShapeRef| walked_ref(c, remap@)),
{
    let ghost v0 = v@;
    let n = v.len();
    let mut k: usize = 0;
    while k < n
        invariant
            n == v0.len(),
            v@.len() == n,
            k <= n,
            forall|j: int| 0 <= j < k ==> v@[j] == walked_ref(v0[j], remap@),
            forall|j: int| k <= j < n ==> v@[j] == v0[j],
        decreases n - k,
    {
        let c = v[k];
        let id = remap_char_shape_id(remap, c.char_shape_id);
        v.set(k, CharShapeRef { start_pos: c.start_pos, char_shape_id: id });
        k = k + 1;
    }
    assert(v@ =~= v0.map_values(|c: CharShapeRef| walked_ref(c, remap@)));
}

fn walk_ids(v: &mut Vec<u32>, remap: &IdRemap)
    ensures
        final(v)@ == old(v)@.map_values(|id: u32| map_or(remap@.char_shape, id)),
{
    let ghost v0 = v@;
    let n = v.len();
    let mut k: usize = 0;
    while k < n
        invariant
            n == v0.len(),
            v@.len() == n,
            k <= n,
            forall|j: int| 0 <= j < k ==> v@[j] == map_or(remap@.char_shape, v0[j]),
            forall|j: int| k <= j < n ==> v@[j] == v0[j],
        decreases n - k,
    {
        let id = remap_char_shape_id(remap, v[k]);
        v.set(k, id);
        k = k + 1;
    }
    assert(v@ =~= v0.map_values(|id: u32| map_or(remap@.char_shape, id)));
}

fn walk_zones(v: &mut Vec<TableZone>, remap: &IdRemap)
    ensures
        final(v)@ == old(v)@.map_values(|z: TableZone| walked_zone(z, remap@)),
{
    let ghost v0 = v@;
    let n = v.len();
    let mut k: usize = 0;
    while k < n
        invariant
            n == v0.len(),
            v@.len() == n,
            k <= n,
            forall|j: int| 0 <= j < k ==> v@[j] == walked_zone(v0[j], remap@),
            forall|j: int| k <= j < n ==> v@[j] == v0[j],
        decreases n - k,
    {
        let mut z = v[k];
        z.border_fill_id = remap_border_fill_id(remap, z.border_fill_id);
        v.set(k, z);
        k = k + 1;
    }
    assert(v@ =~= v0.map_values(|z: TableZone| walked_zone(z, remap@)));
}

fn walk_paragraph_owned(p: Paragraph, remap: &IdRemap) -> (r: Paragraph)
    ensures
        walked_paragraph(p, r, remap@),
    decreases p,
{
    let ghost p0 = p;
    let Paragraph { text, char_count, para_shape_id, style_id, char_shapes, controls } = p;
    let mut char_shapes = char_shapes;
    walk_refs(&mut char_shapes, remap);
    let mut controls = controls;
    let n = controls.len();
    let mut k: usize = 0;
    while k < n
        invariant
            n == p0.controls@.len(),
            controls@.len() == n,
            k <= n,
            forall|j: int| 0 <= j < k ==> walked_control(#[trigger] p0.controls@[j], controls@[j], remap@),
            forall|j: int| k <= j < n ==> controls@[j] == p0.controls@[j],
            p0 == p,
        decreases n - k,
    {
        let mut tmp = Control::Other(0);
        std::mem::swap(&mut tmp, &mut controls[k]);
        assert(tmp == p0.controls@[k as int]);
        assert(decreases_to!(p => tmp));
        let w = walk_control_owned(tmp, remap);
        controls.set(k, w);
        k = k + 1;
    }
    Paragraph {
        text,
        char_count,
        para_shape_id: remap_para_shape_id(remap, para_shape_id),
        style_id: remap_style_id(remap, style_id),
        char_shapes,
        controls,
    }
}

fn walk_paragraphs_owned(ps: Vec<Paragraph>, remap: &IdRemap) -> (r: Vec<Paragraph>)
    ensures
        walked_paragraphs(ps@, r@, remap@),
    decreases ps,
{
    let ghost v0 = ps;
    let mut v = ps;
    let n = v.len();
    let mut k: usize = 0;
    while k < n
        invariant
            n == v0@.len(),
            v@.len() == n,
            k <= n,
            forall|j: int| 0 <= j < k ==> walked_paragraph(#[trigger] v0@[j], v@[j], remap@),
            forall|j: int| k <= j < n ==> v@[j] == v0@[j],
            v0 == ps,
        decreases n - k,
    {
        let mut tmp = empty_paragraph();
        std::mem::swap(&mut tmp, &mut v[k]);
        assert(tmp == v0@[k as int]);
        assert(decreases_to!(ps => tmp));
        let w = walk_paragraph_owned(tmp, remap);
        v.set(k, w);
        k = k + 1;
    }
    v
}

fn walk_cell_owned(c: Cell, remap: &IdRemap) -> (r: Cell)
    ensures
        walked_cell(c, r, remap@),
    decreases c,
{
    let Cell { col, row, col_span, row_span, border_fill_id, paragraphs } = c;
    Cell {
        col,
        row,
        col_span,
        row_span,
        border_fill_id: remap_border_fill_id(remap, border_fill_id),
        paragraphs: walk_paragraphs_owned(paragraphs, remap),
    }
}

fn walk_table_owned(t: Table, remap: &IdRemap) -> (r: Table)
    ensures
        walked_table(t, r, remap@),
    decreases t,
{
    let ghost t0 = t;
    let Table { row_count, col_count, border_fill_id, zones, cells, caption, attr, raw_ctrl_data, common } = t;
    let mut zones = zones;
    walk_zones(&mut zones, remap);
    let mut cells = cells;
    let n = cells.len();
    let mut k: usize = 0;
    while k < n
        invariant
            n == t0.cells@.len(),
            cells@.len() == n,
            k <= n,
            forall|j: int| 0 <= j < k ==> walked_cell(#[trigger] t0.cells@[j], cells@[j], remap@),
            forall|j: int| k <= j < n ==> cells@[j] == t0.cells@[j],
            t0 == t,
        decreases n - k,
    {
        let mut tmp = empty_cell();
        std::mem::swap(&mut tmp, &mut cells[k]);
        assert(tmp == t0.cells@[k as int]);
        assert(decreases_to!(t => tmp));
        let w = walk_cell_owned(tmp, remap);
        cells.set(k, w);
        k = k + 1;
    }
    let caption = match caption {
        Some(c) => Some(Caption { paragraphs: walk_paragraphs_owned(c.paragraphs, remap) }),
        None => None,
    };
    Table {
        row_count,
        col_count,
        border_fill_id: remap_border_fill_id(remap, border_fill_id),
        zones,
        cells,
        caption,
        attr,
        raw_ctrl_data,
        common,
    }
}

fn walk_control_owned(c: Control, remap: &IdRemap) -> (r: Control)
    ensures
        walked_control(c, r, remap@),
    decreases c,
{
    match c {
        Control::Table(b) => Control::Table(Box::new(walk_table_owned(*b, remap))),
        Control::Header(b) => Control::Header(Box::new(Header { paragraphs: walk_paragraphs_owned(b.paragraphs, remap) })),
        Control::Footer(b) => Control::Footer(Box::new(Footer { paragraphs: walk_paragraphs_owned(b.paragraphs, remap) })),
        Control::Footnote(b) => Control::Footnote(Box::new(Footnote { paragraphs: walk_paragraphs_owned(b.paragraphs, remap) })),
        Control::Endnote(b) => Control::Endnote(Box::new(Endnote { paragraphs: walk_paragraphs_owned(b.paragraphs, remap) })),
        Control::CharOverlap(co) => {
            let CharOverlap { chars, char_shape_ids } = co;
            let mut ids = char_shape_ids;
            walk_ids(&mut ids, remap);
            Control::CharOverlap(CharOverlap { chars, char_shape_ids: ids })
        },
        Control::Other(x) => Control::Other(x),
    }
}

/// Rewrites the references of a paragraph (and of everything inside its
/// controls) through `remap`; references that `remap` does not map stay.
pub fn walk_paragraph(p: &mut Paragraph, remap: &IdRemap)
    ensures
        walked_paragraph(*old(p), *final(p), remap@),
{
    let mut tmp = empty_paragraph();
    std::mem::swap(p, &mut tmp);
    *p = walk_paragraph_owned(tmp, remap);
}

/// Rewrites the references of a control through `remap`.
pub fn walk_control(ctrl: &mut Control, remap: &IdRemap)
    ensures
        walked_control(*old(ctrl), *final(ctrl), remap@),
{
    let mut tmp = Control::Other(0);
    std::mem::swap(ctrl, &mut tmp);
    *ctrl = walk_control_owned(tmp, remap);
}

/// Rewrites the references of a table through `remap`.
pub fn walk_table(t: &mut Table, remap: &IdRemap)
    ensures
        walked_table(*old(t), *final(t), remap@),
{
    let mut tmp = Table {
        row_count: 0,
        col_count: 0,
        border_fill_id: 0,
        zones: Vec::new(),
        cells: Vec::new(),
        caption: None,
        attr: 0,
        raw_ctrl_data: Vec::new(),
        common: empty_common(),
    };
    std::mem::swap(t, &mut tmp);
    *t = walk_table_owned(tmp, remap);
}

// ───────────────────────────── Copying paragraphs into another document ─────────────────────────────

fn migrate_refs(v: &Vec<CharShapeRef>, remap: &IdRemap) -> (r: Vec<CharShapeRef>)
    ensures
        r@ == v@.map_values(|c: CharShapeRef| walked_ref(c, remap@)),
{
    let mut out: Vec<CharShapeRef> = Vec::new();
    let n = v.len();
    let mut k: usize = 0;
    while k < n
        invariant
            n == v@.len(),
            k <= n,
            out@ =~= v@.subrange(0, k as int).map_values(|c: CharShapeRef| walked_ref(c, remap@)),
        decreases n - k,
    {
        let c = v[k];
        out.push(CharShapeRef { start_pos: c.start_pos, char_shape_id: remap_char_shape_id(remap, c.char_shape_id) });
        k = k + 1;
    }
    assert(v@.subrange(0, n as int) =~= v@);
    out
}

fn migrate_ids(v: &Vec<u32>, remap: &IdRemap) -> (r: Vec<u32>)
    ensures
        r@ == v@.map_values(|id: u32| map_or(remap@.char_shape, id)),
{
    let mut out: Vec<u32> = Vec::new();
    let n = v.len();
    let mut k: usize = 0;
    while k < n
        invariant
            n == v@.len(),
            k <= n,
            out@ =~= v@.subrange(0, k as int).map_values(|id: u32| map_or(remap@.char_shape, id)),
        decreases n - k,
    {
        out.push(remap_char_shape_id(remap, v[k]));
        k = k + 1;
    }
    assert(v@.subrange(0, n as int) =~= v@);
    out
}

fn migrate_zones(v: &Vec<TableZone>, remap: &IdRemap) -> (r: Vec<TableZone>)
    ensures
        r@ == v@.map_values(|z: TableZone| walked_zone(z, remap@)),
{
    let mut out: Vec<TableZone> = Vec::new();
    let n = v.len();
    let mut k: usize = 0;
    while k < n
        invariant
            n == v@.len(),
            k <= n,
            out@ =~= v@.subrange(0, k as int).map_values(|z: TableZone| walked_zone(z, remap@)),
        decreases n - k,
    {
        let mut z = v[k];
        z.border_fill_id = remap_border_fill_id(remap, z.border_fill_id);
        out.push(z);
        k = k + 1;
    }
    assert(v@.subrange(0, n as int) =~= v@);
    out
}

fn copy_bytes(v: &Vec<u8>) -> (r: Vec<u8>)
    ensures
        r@ == v@,
{
    let mut out: Vec<u8> = Vec::new();
    let n = v.len();
    let mut k: usize = 0;
    while k < n
        invariant
            n == v@.len(),
            k <= n,
            out@ =~= v@.subrange(0, k as int),
        decreases n - k,
    {
        out.push(v[k]);
        k = k + 1;
    }
    assert(v@.subrange(0, n as int) =~= v@);
    out
}

fn copy_common(c: &CommonObjAttr) -> (r: CommonObjAttr)
    ensures
        r == *c,
{
    CommonObjAttr {
        attr: c.attr,
        vertical_offset: c.vertical_offset,
        horizontal_offset: c.horizontal_offset,
        width: c.width,
        height: c.height,
        z_order: c.z_order,
        margin: c.margin,
        instance_id: c.instance_id,
        prevent_page_break: c.prevent_page_break,
        description: c.description.clone(),
    }
}

fn empty_common() -> (r: CommonObjAttr)
    ensures
        r.attr == 0,
        r.vertical_offset == 0,
        r.horizontal_offset == 0,
        r.width == 0,
        r.height == 0,
        r.z_order == 0,
        r.margin@ == seq![0i16, 0, 0, 0],
        r.instance_id == 0,
        r.prevent_page_break == 0,
        r.description@.len() == 0,
{
    CommonObjAttr {
        attr: 0,
        vertical_offset: 0,
        horizontal_offset: 0,
        width: 0,
        height: 0,
        z_order: 0,
        margin: [0i16, 0, 0, 0],
        instance_id: 0,
        prevent_page_break: 0,
        description: String::new(),
    }
}

fn copy_chars(v: &Vec<char>) -> (r: Vec<char>)
    ensures
        r@ == v@,
{
    let mut out: Vec<char> = Vec::new();
    let n = v.len();
    let mut k: usize = 0;
    while k < n
        invariant
            n == v@.len(),
            k <= n,
            out@ =~= v@.subrange(0, k as int),
        decreases n - k,
    {
        out.push(v[k]);
        k = k + 1;
    }
    assert(v@.subrange(0, n as int) =~= v@);
    out
}

/// A copy of the paragraph `p` with its references mapped through `remap`.
fn migrate_paragraph(p: &Paragraph, remap: &IdRemap) -> (r: Paragraph)
    ensures
        walked_paragraph(*p, r, remap@),
    decreases p,
{
    let char_shapes = migrate_refs(&p.char_shapes, remap);
    let mut controls: Vec<Control> = Vec::new();
    let n = p.controls.len();
    let mut k: usize = 0;
    while k < n
        invariant
            n == p.controls@.len(),
            k <= n,
            controls@.len() == k,
            forall|j: int| 0 <= j < k ==> walked_control(#[trigger] p.controls@[j], controls@[j], remap@),
        decreases n - k,
    {
        assert(decreases_to!(p => p.controls@[k as int]));
        let w = migrate_control(&p.controls[k], remap);
        controls.push(w);
        k = k + 1;
    }
    Paragraph {
        text: p.text.clone(),
        char_count: p.char_count,
        para_shape_id: remap_para_shape_id(remap, p.para_shape_id),
        style_id: remap_style_id(remap, p.style_id),
        char_shapes,
        controls,
    }
}

fn migrate_paragraphs(ps: &Vec<Paragraph>, remap: &IdRemap) -> (r: Vec<Paragraph>)
    ensures
        walked_paragraphs(ps@, r@, remap@),
    decreases ps,
{
    let mut out: Vec<Paragraph> = Vec::new();
    let n = ps.len();
    let mut k: usize = 0;
    while k < n
        invariant
            n == ps@.len(),
            k <= n,
            out@.len() == k,
            forall|j: int| 0 <= j < k ==> walked_paragraph(#[trigger] ps@[j], out@[j], remap@),
        decreases n - k,
    {
        assert(decreases_to!(ps => ps@[k as int]));
        let w = migrate_paragraph(&ps[k], remap);
        out.push(w);
        k = k + 1;
    }
    out
}

fn migrate_cell(c: &Cell, remap: &IdRemap) -> (r: Cell)
    ensures
        walked_cell(*c, r, remap@),
    decreases c,
{
    Cell {
        col: c.col,
        row: c.row,
        col_span: c.col_span,
        row_span: c.row_span,
        border_fill_id: remap_border_fill_id(remap, c.border_fill_id),
        paragraphs: migrate_paragraphs(&c.paragraphs, remap),
    }
}

fn migrate_table(t: &Table, remap: &IdRemap) -> (r: Table)
    ensures
        walked_table(*t, r, remap@),
    decreases t,
{
    let zones = migrate_zones(&t.zones, remap);
    let mut cells: Vec<Cell> = Vec::new();
    let n = t.cells.len();
    let mut k: usize = 0;
    while k < n
        invariant
            n == t.cells@.len(),
            k <= n,
            cells@.len() == k,
            forall|j: int| 0 <= j < k ==> walked_cell(#[trigger] t.cells@[j], cells@[j], remap@),
        decreases n - k,
    {
        assert(decreases_to!(t => t.cells@[k as int]));
        let w = migrate_cell(&t.cells[k], remap);
        cells.push(w);
        k = k + 1;
    }
    let caption = match &t.caption {
        Some(c) => Some(Caption { paragraphs: migrate_paragraphs(&c.paragraphs, remap) }),
        None => None,
    };
    Table {
        row_count: t.row_count,
        col_count: t.col_count,
        border_fill_id: remap_border_fill_id(remap, t.border_fill_id),
        zones,
        cells,
        caption,
        attr: t.attr,
        raw_ctrl_data: copy_bytes(&t.raw_ctrl_data),
        common: copy_common(&t.common),
    }
}

fn migrate_control(c: &Control, remap: &IdRemap) -> (r: Control)
    ensures
        walked_control(*c, r, remap@),
    decreases c,
{
    match c {
        Control::Table(b) => Control::Table(Box::new(migrate_table(b, remap))),
        Control::Header(b) => Control::Header(Box::new(Header { paragraphs: migrate_paragraphs(&b.paragraphs, remap) })),
        Control::Footer(b) => Control::Footer(Box::new(Footer { paragraphs: migrate_paragraphs(&b.paragraphs, remap) })),
        Control::Footnote(b) => Control::Footnote(Box::new(Footnote { paragraphs: migrate_paragraphs(&b.paragraphs, remap) })),
        Control::Endnote(b) => Control::Endnote(Box::new(Endnote { paragraphs: migrate_paragraphs(&b.paragraphs, remap) })),
        Control::CharOverlap(co) => Control::CharOverlap(
            CharOverlap { chars: copy_chars(&co.chars), char_shape_ids: migrate_ids(&co.char_shape_ids, remap) },
        ),
        Control::Other(x) => Control::Other(*x),
    }
}

// ───────────────────────────── Migrating paragraphs into this document ─────────────────────────────

/// The outcome of a migration.
#[derive(Debug)]
pub struct MigrateReport {
    pub inserted_para_count: usize,
    /// The paragraph where the caret ends up.
    pub last_para_idx: usize,
    /// The character offset of the caret in that paragraph.
    pub last_char_offset: usize,
    pub id_remap: IdRemap,
}

/// `구역 <s> 범위 초과`: the destination section does not exist.
pub open spec fn msg_section_range(s: nat) -> Seq<char> {
    "구역 "@ + decimal_chars(s) + " 범위 초과"@
}

/// `문단 <p> 범위 초과`: the destination paragraph does not exist.
pub open spec fn msg_paragraph_range(p: nat) -> Seq<char> {
    "문단 "@ + decimal_chars(p) + " 범위 초과"@
}

/// `src 구역 <s> 범위 초과`: the source section does not exist.
pub open spec fn msg_src_section_range(s: nat) -> Seq<char> {
    "src 구역 "@ + decimal_chars(s) + " 범위 초과"@
}

/// `src paragraph 범위 <a>..<b> 가 총 <n> 초과`: the source range does not lie
/// within the source section's paragraphs.
pub open spec fn msg_src_range(a: nat, b: nat, n: nat) -> Seq<char> {
    "src paragraph 범위 "@ + decimal_chars(a) + ".."@ + decimal_chars(b) + " 가 총 "@ + decimal_chars(n) + " 초과"@
}

fn message_around(head: &str, n: usize, tail: &str) -> (r: String)
    ensures
        r@ == head@ + decimal_chars(n as nat) + tail@,
{
    let mut m = head.to_owned();
    let d = decimal_string(n);
    m.append(d.as_str());
    m.append(tail);
    m
}

fn src_range_message(a: usize, b: usize, n: usize) -> (r: String)
    ensures
        r@ == msg_src_range(a as nat, b as nat, n as nat),
{
    let mut m = "src paragraph 범위 ".to_owned();
    let da = decimal_string(a);
    m.append(da.as_str());
    m.append("..");
    let db = decimal_string(b);
    m.append(db.as_str());
    m.append(" 가 총 ");
    let dn = decimal_string(n);
    m.append(dn.as_str());
    m.append(" 초과");
    m
}

/// The paragraphs `new` of a section after the mapped copies of `src` land at
/// the caret `offset` of its paragraph `i` (`old` before): the paragraph is cut
/// there; its part before the caret stays unless it is empty; the copies
/// follow, then the part after the caret unless it is empty, then the
/// paragraphs that followed.
pub open spec fn landed(old: Seq<Paragraph>, new: Seq<Paragraph>, i: int, offset: int, src: Seq<Paragraph>, rv: MigrateRemapView) -> bool {
    let a = old[i];
    let k = cut_point(a, offset);
    let base = if k == 0 { i } else { i + 1 };
    let n = src.len() as int;
    let after = base + n + if k < a.text@.len() { 1int } else { 0int };
    &&& new.len() == after + old.len() - i - 1
    &&& forall|j: int| 0 <= j < i ==> #[trigger] new[j] == old[j]
    &&& k != 0 ==> is_left_part(a, new[i], offset)
    &&& forall|j: int| 0 <= j < n ==> walked_paragraph(#[trigger] src[j], new[base + j], rv)
    &&& k < a.text@.len() ==> is_right_part(a, new[base + n], offset)
    &&& forall|j: int| i < j < old.len() ==> new[after + j - i - 1] == #[trigger] old[j]
}

/// Where the caret ends up after the copies of `src` land at the caret
/// `offset` of paragraph `i` (`a` is that paragraph): at the start of the part
/// after the caret, or, when that part is empty, at the end of the last copy.
pub open spec fn caret_after(a: Paragraph, i: int, offset: int, src: Seq<Paragraph>) -> (int, int) {
    let k = cut_point(a, offset);
    let base = if k == 0 { i } else { i + 1 };
    if k < a.text@.len() {
        (base + src.len(), 0)
    } else {
        (base + src.len() - 1, src.last().text@.len() as int)
    }
}

impl DocumentCore {
    /// Moves the paragraphs `src_paras` of section `src_section` of `src_doc`
    /// to the caret (`dst_offset` characters into paragraph `dst_para` of
    /// section `dst_section`): the definitions of `src_doc` are merged into
    /// this document (`remap_definitions`), the paragraphs are copied with
    /// their references mapped, the destination paragraph is cut at the caret
    /// and the copies are put between its two parts (an empty part is
    /// dropped), the section is marked dirty and the paste is logged.
    pub fn cross_document_migrate(
        &mut self,
        src_doc: &Document,
        src_section: usize,
        src_paras: std::ops::Range<usize>,
        dst_section: usize,
        dst_para: usize,
        dst_offset: usize,
    ) -> (r: Result<MigrateReport, HwpError>)
        ensures
            ({
                let d = old(self).document;
                let checks_pass = dst_section < d.sections@.len()
                    && dst_para < d.sections@[dst_section as int].paragraphs@.len()
                    && src_section < src_doc.sections@.len()
                    && src_paras.end <= src_doc.sections@[src_section as int].paragraphs@.len()
                    && src_paras.start <= src_paras.end;
                &&& !checks_pass ==> *final(self) == *old(self)
                &&& dst_section >= d.sections@.len() ==> (r matches Err(HwpError::RenderError(m))
                    && m@ == msg_section_range(dst_section as nat))
                &&& dst_section < d.sections@.len() && dst_para >= d.sections@[dst_section as int].paragraphs@.len()
                    ==> (r matches Err(HwpError::RenderError(m)) && m@ == msg_paragraph_range(dst_para as nat))
                &&& dst_section < d.sections@.len() && dst_para < d.sections@[dst_section as int].paragraphs@.len()
                    && src_section >= src_doc.sections@.len() ==> (r matches Err(HwpError::RenderError(m))
                    && m@ == msg_src_section_range(src_section as nat))
                &&& dst_section < d.sections@.len() && dst_para < d.sections@[dst_section as int].paragraphs@.len()
                    && src_section < src_doc.sections@.len() && !(src_paras.end
                    <= src_doc.sections@[src_section as int].paragraphs@.len() && src_paras.start <= src_paras.end)
                    ==> (r matches Err(HwpError::RenderError(m)) && m@ == msg_src_range(
                    src_paras.start as nat,
                    src_paras.end as nat,
                    src_doc.sections@[src_section as int].paragraphs@.len(),
                ))
            }),
            ({
                let d = old(self).document;
                let checks_pass = dst_section < d.sections@.len()
                    && dst_para < d.sections@[dst_section as int].paragraphs@.len()
                    && src_section < src_doc.sections@.len()
                    && src_paras.end <= src_doc.sections@[src_section as int].paragraphs@.len()
                    && src_paras.start <= src_paras.end;
                let src = src_doc.sections@[src_section as int].paragraphs@.subrange(
                    src_paras.start as int,
                    src_paras.end as int,
                );
                let nd = final(self).document;
                let old_paras = d.sections@[dst_section as int].paragraphs@;
                checks_pass ==> (r matches Ok(rep) && {
                    &&& rep.id_remap@ == merged_remap(src_doc.doc_info, d.doc_info)
                    &&& merged_doc_info(src_doc.doc_info, d.doc_info) == (nd.doc_info.border_fills@,
                        nd.doc_info.char_shapes@, nd.doc_info.para_shapes@, nd.doc_info.styles@)
                    &&& nd.doc_info.raw_stream_dirty
                    &&& rep.inserted_para_count == src.len()
                    &&& final(self).source_section_xmls == old(self).source_section_xmls
                    &&& final(self).source_header_xml == old(self).source_header_xml
                    &&& nd.sections@.len() == d.sections@.len()
                    &&& forall|j: int| 0 <= j < d.sections@.len() && j != dst_section
                        ==> #[trigger] nd.sections@[j] == d.sections@[j]
                    &&& src.len() == 0 ==> {
                        &&& rep.last_para_idx == dst_para
                        &&& rep.last_char_offset == dst_offset
                        &&& nd.sections@[dst_section as int] == d.sections@[dst_section as int]
                        &&& final(self).dirty_sections == old(self).dirty_sections
                        &&& final(self).dirty_paragraphs == old(self).dirty_paragraphs
                        &&& final(self).page_tree_cache == old(self).page_tree_cache
                        &&& final(self).event_log == old(self).event_log
                    }
                    &&& src.len() > 0 ==> {
                        &&& nd.sections@[dst_section as int].raw_stream is None
                        &&& landed(old_paras, nd.sections@[dst_section as int].paragraphs@, dst_para as int,
                            dst_offset as int, src, rep.id_remap@)
                        &&& (rep.last_para_idx as int, rep.last_char_offset as int) == caret_after(
                            old_paras[dst_para as int], dst_para as int, dst_offset as int, src)
                        &&& edit_marked(*old(self), *final(self), dst_section as int, dst_para as int)
                    }
                })
            }),
    {
        if dst_section >= self.document.sections.len() {
            return Err(HwpError::RenderError(message_around("구역 ", dst_section, " 범위 초과")));
        }
        if dst_para >= self.document.sections[dst_section].paragraphs.len() {
            return Err(HwpError::RenderError(message_around("문단 ", dst_para, " 범위 초과")));
        }
        if src_section >= src_doc.sections.len() {
            return Err(HwpError::RenderError(message_around("src 구역 ", src_section, " 범위 초과")));
        }
        let src_total = src_doc.sections[src_section].paragraphs.len();
        if src_paras.end > src_total || src_paras.start > src_paras.end {
            return Err(HwpError::RenderError(src_range_message(src_paras.start, src_paras.end, src_total)));
        }
        let ghost old_self = *self;
        let remap = remap_definitions(&src_doc.doc_info, &mut self.document.doc_info);
        self.document.doc_info.raw_stream_dirty = true;

        let src_ps = &src_doc.sections[src_section].paragraphs;
        let ghost src = src_ps@.subrange(src_paras.start as int, src_paras.end as int);
        let mut cloned: Vec<Paragraph> = Vec::new();
        let mut j: usize = src_paras.start;
        while j < src_paras.end
            invariant
                src_paras.start <= j <= src_paras.end,
                src_paras.end <= src_ps@.len(),
                src == src_ps@.subrange(src_paras.start as int, src_paras.end as int),
                cloned@.len() == j - src_paras.start,
                forall|q: int| 0 <= q < cloned@.len() ==> walked_paragraph(#[trigger] src[q], cloned@[q], remap@),
            decreases src_paras.end - j,
        {
            let c = migrate_paragraph(&src_ps[j], &remap);
            cloned.push(c);
            j = j + 1;
        }
        let n = cloned.len();
        if n == 0 {
            return Ok(MigrateReport {
                inserted_para_count: 0,
                last_para_idx: dst_para,
                last_char_offset: dst_offset,
                id_remap: remap,
            });
        }
        let last_len = cloned[n - 1].text.as_str().unicode_len();

        let mut sec = Section { paragraphs: Vec::new(), raw_stream: None };
        std::mem::swap(&mut sec, &mut self.document.sections[dst_section]);
        let Section { paragraphs, raw_stream: _ } = sec;
        let ghost old_paras = paragraphs@;
        let mut paras = paragraphs;
        let mut tail = paras.split_off(dst_para + 1);
        let mut target = match paras.pop() {
            Some(p) => p,
            None => {
                proof { assert(false); }
                Paragraph { text: String::new(), char_count: 0, para_shape_id: 0, style_id: 0,
                    char_shapes: Vec::new(), controls: Vec::new() }
            },
        };
        let ghost a = target;
        let right = target.split_at(dst_offset);
        let left_empty = target.text.as_str().is_empty();
        let right_kept = !right.text.as_str().is_empty();
        let ghost prefix = paras@;
        let ghost mid = cloned@;
        let ghost left = target;
        let ghost r0 = right;
        let ghost t0 = tail@;
        if !left_empty {
            paras.push(target);
        }
        let base = paras.len();
        paras.append(&mut cloned);
        let insert_idx = paras.len();
        if right_kept {
            paras.push(right);
        }
        paras.append(&mut tail);
        proof {
            let k = cut_point(a, dst_offset as int);
            assert(left.text@.len() == k);
            assert(prefix =~= old_paras.subrange(0, dst_para as int));
            assert(t0 =~= old_paras.subrange(dst_para + 1, old_paras.len() as int));
            let l = if k == 0 { Seq::<Paragraph>::empty() } else { seq![left] };
            let rr = if k < a.text@.len() { seq![r0] } else { Seq::<Paragraph>::empty() };
            assert(paras@ =~= prefix + l + mid + rr + t0);
            let np = paras@;
            assert forall|q: int| 0 <= q < mid.len() implies walked_paragraph(#[trigger] src[q], np[base + q], remap@) by {
                assert(np[base + q] == mid[q]);
            }
            let after = base + n + if k < a.text@.len() { 1int } else { 0int };
            assert forall|q: int| dst_para < q < old_paras.len() implies np[after + q - dst_para - 1]
                == #[trigger] old_paras[q] by {
                assert(np[after + q - dst_para - 1] == t0[q - dst_para - 1]);
            }
            assert forall|q: int| 0 <= q < dst_para implies #[trigger] np[q] == old_paras[q] by {
                assert(np[q] == prefix[q]);
            }
        }
        let (last_para_idx, last_char_offset) = if right_kept { (insert_idx, 0) } else { (insert_idx - 1, last_len) };
        self.document.sections.set(dst_section, Section { paragraphs: paras, raw_stream: None });
        let ghost mid_self = *self;
        self.mark_pasted(dst_section, dst_para);
        proof {
            assert forall|q: int| 0 <= q < old_self.document.sections@.len() && q != dst_section
                implies #[trigger] self.document.sections@[q] == old_self.document.sections@[q] by {}
        }
        Ok(MigrateReport { inserted_para_count: n, last_para_idx, last_char_offset, id_remap: remap })
    }
}

} // verus!
