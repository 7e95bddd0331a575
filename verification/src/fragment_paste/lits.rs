//! Byte literals of the HWPX markup that the raw-XML editors look for.

use vstd::prelude::*;
use crate::text::all_ascii;

verus! {

/// The bytes of ` id="`.
pub open spec fn id_dq() -> Seq<u8> {
    seq![32u8, 105, 100, 61, 34]
}

pub(crate) fn id_dq_bytes() -> (r: Vec<u8>)
    ensures
        r@ == id_dq(),
        all_ascii(r@),
{
    let v: Vec<u8> = vec![32u8, 105, 100, 61, 34];
    assert(v@ =~= id_dq());
    v
}

/// The bytes of ` id='`.
pub open spec fn id_sq() -> Seq<u8> {
    seq![32u8, 105, 100, 61, 39]
}

pub(crate) fn id_sq_bytes() -> (r: Vec<u8>)
    ensures
        r@ == id_sq(),
        all_ascii(r@),
{
    let v: Vec<u8> = vec![32u8, 105, 100, 61, 39];
    assert(v@ =~= id_sq());
    v
}

/// The bytes of `<hh:`.
pub open spec fn hh_open() -> Seq<u8> {
    seq![60u8, 104, 104, 58]
}

pub(crate) fn hh_open_bytes() -> (r: Vec<u8>)
    ensures
        r@ == hh_open(),
        all_ascii(r@),
{
    let v: Vec<u8> = vec![60u8, 104, 104, 58];
    assert(v@ =~= hh_open());
    v
}

/// The bytes of `</hh:`.
pub open spec fn hh_close_open() -> Seq<u8> {
    seq![60u8, 47, 104, 104, 58]
}

pub(crate) fn hh_close_open_bytes() -> (r: Vec<u8>)
    ensures
        r@ == hh_close_open(),
        all_ascii(r@),
{
    let v: Vec<u8> = vec![60u8, 47, 104, 104, 58];
    assert(v@ =~= hh_close_open());
    v
}

/// The bytes of `charPr`.
pub open spec fn tag_char_pr() -> Seq<u8> {
    seq![99u8, 104, 97, 114, 80, 114]
}

pub(crate) fn tag_char_pr_bytes() -> (r: Vec<u8>)
    ensures
        r@ == tag_char_pr(),
        all_ascii(r@),
{
    let v: Vec<u8> = vec![99u8, 104, 97, 114, 80, 114];
    assert(v@ =~= tag_char_pr());
    v
}

/// The bytes of `paraPr`.
pub open spec fn tag_para_pr() -> Seq<u8> {
    seq![112u8, 97, 114, 97, 80, 114]
}

pub(crate) fn tag_para_pr_bytes() -> (r: Vec<u8>)
    ensures
        r@ == tag_para_pr(),
        all_ascii(r@),
{
    let v: Vec<u8> = vec![112u8, 97, 114, 97, 80, 114];
    assert(v@ =~= tag_para_pr());
    v
}

/// The bytes of `style`.
pub open spec fn tag_style() -> Seq<u8> {
    seq![115u8, 116, 121, 108, 101]
}

pub(crate) fn tag_style_bytes() -> (r: Vec<u8>)
    ensures
        r@ == tag_style(),
        all_ascii(r@),
{
    let v: Vec<u8> = vec![115u8, 116, 121, 108, 101];
    assert(v@ =~= tag_style());
    v
}

/// The bytes of `borderFill`.
pub open spec fn tag_border_fill() -> Seq<u8> {
    seq![98u8, 111, 114, 100, 101, 114, 70, 105, 108, 108]
}

pub(crate) fn tag_border_fill_bytes() -> (r: Vec<u8>)
    ensures
        r@ == tag_border_fill(),
        all_ascii(r@),
{
    let v: Vec<u8> = vec![98u8, 111, 114, 100, 101, 114, 70, 105, 108, 108];
    assert(v@ =~= tag_border_fill());
    v
}

/// The bytes of `</hh:charPropertyList>`.
pub open spec fn char_pr_list_close() -> Seq<u8> {
    seq![60u8, 47, 104, 104, 58, 99, 104, 97, 114, 80, 114, 111, 112, 101, 114, 116, 121, 76, 105, 115, 116, 62]
}

pub(crate) fn char_pr_list_close_bytes() -> (r: Vec<u8>)
    ensures
        r@ == char_pr_list_close(),
        all_ascii(r@),
{
    let v: Vec<u8> = vec![60u8, 47, 104, 104, 58, 99, 104, 97, 114, 80, 114, 111, 112, 101, 114, 116, 121, 76, 105, 115, 116, 62];
    assert(v@ =~= char_pr_list_close());
    v
}

/// The bytes of `</hh:charProperties>`.
pub open spec fn char_pr_props_close() -> Seq<u8> {
    seq![60u8, 47, 104, 104, 58, 99, 104, 97, 114, 80, 114, 111, 112, 101, 114, 116, 105, 101, 115, 62]
}

pub(crate) fn char_pr_props_close_bytes() -> (r: Vec<u8>)
    ensures
        r@ == char_pr_props_close(),
        all_ascii(r@),
{
    let v: Vec<u8> = vec![60u8, 47, 104, 104, 58, 99, 104, 97, 114, 80, 114, 111, 112, 101, 114, 116, 105, 101, 115, 62];
    assert(v@ =~= char_pr_props_close());
    v
}

/// The bytes of `</hh:paraPropertyList>`.
pub open spec fn para_pr_list_close() -> Seq<u8> {
    seq![60u8, 47, 104, 104, 58, 112, 97, 114, 97, 80, 114, 111, 112, 101, 114, 116, 121, 76, 105, 115, 116, 62]
}

pub(crate) fn para_pr_list_close_bytes() -> (r: Vec<u8>)
    ensures
        r@ == para_pr_list_close(),
        all_ascii(r@),
{
    let v: Vec<u8> = vec![60u8, 47, 104, 104, 58, 112, 97, 114, 97, 80, 114, 111, 112, 101, 114, 116, 121, 76, 105, 115, 116, 62];
    assert(v@ =~= para_pr_list_close());
    v
}

/// The bytes of `</hh:paraProperties>`.
pub open spec fn para_pr_props_close() -> Seq<u8> {
    seq![60u8, 47, 104, 104, 58, 112, 97, 114, 97, 80, 114, 111, 112, 101, 114, 116, 105, 101, 115, 62]
}

pub(crate) fn para_pr_props_close_bytes() -> (r: Vec<u8>)
    ensures
        r@ == para_pr_props_close(),
        all_ascii(r@),
{
    let v: Vec<u8> = vec![60u8, 47, 104, 104, 58, 112, 97, 114, 97, 80, 114, 111, 112, 101, 114, 116, 105, 101, 115, 62];
    assert(v@ =~= para_pr_props_close());
    v
}

/// The bytes of `</hh:styleList>`.
pub open spec fn style_list_close() -> Seq<u8> {
    seq![60u8, 47, 104, 104, 58, 115, 116, 121, 108, 101, 76, 105, 115, 116, 62]
}

pub(crate) fn style_list_close_bytes() -> (r: Vec<u8>)
    ensures
        r@ == style_list_close(),
        all_ascii(r@),
{
    let v: Vec<u8> = vec![60u8, 47, 104, 104, 58, 115, 116, 121, 108, 101, 76, 105, 115, 116, 62];
    assert(v@ =~= style_list_close());
    v
}

/// The bytes of `</hh:styles>`.
pub open spec fn style_props_close() -> Seq<u8> {
    seq![60u8, 47, 104, 104, 58, 115, 116, 121, 108, 101, 115, 62]
}

pub(crate) fn style_props_close_bytes() -> (r: Vec<u8>)
    ensures
        r@ == style_props_close(),
        all_ascii(r@),
{
    let v: Vec<u8> = vec![60u8, 47, 104, 104, 58, 115, 116, 121, 108, 101, 115, 62];
    assert(v@ =~= style_props_close());
    v
}

/// The bytes of `</hh:borderFillList>`.
pub open spec fn border_fill_list_close() -> Seq<u8> {
    seq![60u8, 47, 104, 104, 58, 98, 111, 114, 100, 101, 114, 70, 105, 108, 108, 76, 105, 115, 116, 62]
}

pub(crate) fn border_fill_list_close_bytes() -> (r: Vec<u8>)
    ensures
        r@ == border_fill_list_close(),
        all_ascii(r@),
{
    let v: Vec<u8> = vec![60u8, 47, 104, 104, 58, 98, 111, 114, 100, 101, 114, 70, 105, 108, 108, 76, 105, 115, 116, 62];
    assert(v@ =~= border_fill_list_close());
    v
}

/// The bytes of `</hh:borderFills>`.
pub open spec fn border_fill_props_close() -> Seq<u8> {
    seq![60u8, 47, 104, 104, 58, 98, 111, 114, 100, 101, 114, 70, 105, 108, 108, 115, 62]
}

pub(crate) fn border_fill_props_close_bytes() -> (r: Vec<u8>)
    ensures
        r@ == border_fill_props_close(),
        all_ascii(r@),
{
    let v: Vec<u8> = vec![60u8, 47, 104, 104, 58, 98, 111, 114, 100, 101, 114, 70, 105, 108, 108, 115, 62];
    assert(v@ =~= border_fill_props_close());
    v
}

/// The bytes of `charPrIDRef`.
pub open spec fn attr_char_pr_ref() -> Seq<u8> {
    seq![99u8, 104, 97, 114, 80, 114, 73, 68, 82, 101, 102]
}

pub(crate) fn attr_char_pr_ref_bytes() -> (r: Vec<u8>)
    ensures
        r@ == attr_char_pr_ref(),
        all_ascii(r@),
{
    let v: Vec<u8> = vec![99u8, 104, 97, 114, 80, 114, 73, 68, 82, 101, 102];
    assert(v@ =~= attr_char_pr_ref());
    v
}

/// The bytes of `paraPrIDRef`.
pub open spec fn attr_para_pr_ref() -> Seq<u8> {
    seq![112u8, 97, 114, 97, 80, 114, 73, 68, 82, 101, 102]
}

pub(crate) fn attr_para_pr_ref_bytes() -> (r: Vec<u8>)
    ensures
        r@ == attr_para_pr_ref(),
        all_ascii(r@),
{
    let v: Vec<u8> = vec![112u8, 97, 114, 97, 80, 114, 73, 68, 82, 101, 102];
    assert(v@ =~= attr_para_pr_ref());
    v
}

/// The bytes of `styleIDRef`.
pub open spec fn attr_style_ref() -> Seq<u8> {
    seq![115u8, 116, 121, 108, 101, 73, 68, 82, 101, 102]
}

pub(crate) fn attr_style_ref_bytes() -> (r: Vec<u8>)
    ensures
        r@ == attr_style_ref(),
        all_ascii(r@),
{
    let v: Vec<u8> = vec![115u8, 116, 121, 108, 101, 73, 68, 82, 101, 102];
    assert(v@ =~= attr_style_ref());
    v
}

/// The bytes of `borderFillIDRef`.
pub open spec fn attr_border_fill_ref() -> Seq<u8> {
    seq![98u8, 111, 114, 100, 101, 114, 70, 105, 108, 108, 73, 68, 82, 101, 102]
}

pub(crate) fn attr_border_fill_ref_bytes() -> (r: Vec<u8>)
    ensures
        r@ == attr_border_fill_ref(),
        all_ascii(r@),
{
    let v: Vec<u8> = vec![98u8, 111, 114, 100, 101, 114, 70, 105, 108, 108, 73, 68, 82, 101, 102];
    assert(v@ =~= attr_border_fill_ref());
    v
}

/// The bytes of `<hp:p/>`.
pub open spec fn p_empty() -> Seq<u8> {
    seq![60u8, 104, 112, 58, 112, 47, 62]
}

pub(crate) fn p_empty_bytes() -> (r: Vec<u8>)
    ensures
        r@ == p_empty(),
        all_ascii(r@),
{
    let v: Vec<u8> = vec![60u8, 104, 112, 58, 112, 47, 62];
    assert(v@ =~= p_empty());
    v
}

/// The bytes of `<hp:p `.
pub open spec fn p_open() -> Seq<u8> {
    seq![60u8, 104, 112, 58, 112, 32]
}

pub(crate) fn p_open_bytes() -> (r: Vec<u8>)
    ensures
        r@ == p_open(),
        all_ascii(r@),
{
    let v: Vec<u8> = vec![60u8, 104, 112, 58, 112, 32];
    assert(v@ =~= p_open());
    v
}

/// The bytes of `</hp:p>`.
pub open spec fn p_close() -> Seq<u8> {
    seq![60u8, 47, 104, 112, 58, 112, 62]
}

pub(crate) fn p_close_bytes() -> (r: Vec<u8>)
    ensures
        r@ == p_close(),
        all_ascii(r@),
{
    let v: Vec<u8> = vec![60u8, 47, 104, 112, 58, 112, 62];
    assert(v@ =~= p_close());
    v
}

/// The bytes of `<hp:p>`.
pub open spec fn p_bare() -> Seq<u8> {
    seq![60u8, 104, 112, 58, 112, 62]
}

pub(crate) fn p_bare_bytes() -> (r: Vec<u8>)
    ensures
        r@ == p_bare(),
        all_ascii(r@),
{
    let v: Vec<u8> = vec![60u8, 104, 112, 58, 112, 62];
    assert(v@ =~= p_bare());
    v
}

/// The bytes of `<hp:subList`.
pub open spec fn sublist_open() -> Seq<u8> {
    seq![60u8, 104, 112, 58, 115, 117, 98, 76, 105, 115, 116]
}

pub(crate) fn sublist_open_bytes() -> (r: Vec<u8>)
    ensures
        r@ == sublist_open(),
        all_ascii(r@),
{
    let v: Vec<u8> = vec![60u8, 104, 112, 58, 115, 117, 98, 76, 105, 115, 116];
    assert(v@ =~= sublist_open());
    v
}

/// The bytes of `</hp:subList>`.
pub open spec fn sublist_close() -> Seq<u8> {
    seq![60u8, 47, 104, 112, 58, 115, 117, 98, 76, 105, 115, 116, 62]
}

pub(crate) fn sublist_close_bytes() -> (r: Vec<u8>)
    ensures
        r@ == sublist_close(),
        all_ascii(r@),
{
    let v: Vec<u8> = vec![60u8, 47, 104, 112, 58, 115, 117, 98, 76, 105, 115, 116, 62];
    assert(v@ =~= sublist_close());
    v
}

/// The bytes of `<![CDATA[`.
pub open spec fn cdata_open() -> Seq<u8> {
    seq![60u8, 33, 91, 67, 68, 65, 84, 65, 91]
}

pub(crate) fn cdata_open_bytes() -> (r: Vec<u8>)
    ensures
        r@ == cdata_open(),
        all_ascii(r@),
{
    let v: Vec<u8> = vec![60u8, 33, 91, 67, 68, 65, 84, 65, 91];
    assert(v@ =~= cdata_open());
    v
}

/// The bytes of `]]>`.
pub open spec fn cdata_close() -> Seq<u8> {
    seq![93u8, 93, 62]
}

pub(crate) fn cdata_close_bytes() -> (r: Vec<u8>)
    ensures
        r@ == cdata_close(),
        all_ascii(r@),
{
    let v: Vec<u8> = vec![93u8, 93, 62];
    assert(v@ =~= cdata_close());
    v
}

/// The bytes of `<!--`.
pub open spec fn comment_open() -> Seq<u8> {
    seq![60u8, 33, 45, 45]
}

pub(crate) fn comment_open_bytes() -> (r: Vec<u8>)
    ensures
        r@ == comment_open(),
        all_ascii(r@),
{
    let v: Vec<u8> = vec![60u8, 33, 45, 45];
    assert(v@ =~= comment_open());
    v
}

/// The bytes of `-->`.
pub open spec fn comment_close() -> Seq<u8> {
    seq![45u8, 45, 62]
}

pub(crate) fn comment_close_bytes() -> (r: Vec<u8>)
    ensures
        r@ == comment_close(),
        all_ascii(r@),
{
    let v: Vec<u8> = vec![45u8, 45, 62];
    assert(v@ =~= comment_close());
    v
}

/// The bytes of `<hp:tbl`.
pub open spec fn tbl_open() -> Seq<u8> {
    seq![60u8, 104, 112, 58, 116, 98, 108]
}

pub(crate) fn tbl_open_bytes() -> (r: Vec<u8>)
    ensures
        r@ == tbl_open(),
        all_ascii(r@),
{
    let v: Vec<u8> = vec![60u8, 104, 112, 58, 116, 98, 108];
    assert(v@ =~= tbl_open());
    v
}

/// The bytes of `</hp:tbl>`.
pub open spec fn tbl_close() -> Seq<u8> {
    seq![60u8, 47, 104, 112, 58, 116, 98, 108, 62]
}

pub(crate) fn tbl_close_bytes() -> (r: Vec<u8>)
    ensures
        r@ == tbl_close(),
        all_ascii(r@),
{
    let v: Vec<u8> = vec![60u8, 47, 104, 112, 58, 116, 98, 108, 62];
    assert(v@ =~= tbl_close());
    v
}

/// The bytes of `<hp:tr`.
pub open spec fn tr_open() -> Seq<u8> {
    seq![60u8, 104, 112, 58, 116, 114]
}

pub(crate) fn tr_open_bytes() -> (r: Vec<u8>)
    ensures
        r@ == tr_open(),
        all_ascii(r@),
{
    let v: Vec<u8> = vec![60u8, 104, 112, 58, 116, 114];
    assert(v@ =~= tr_open());
    v
}

/// The bytes of `</hp:tr>`.
pub open spec fn tr_close() -> Seq<u8> {
    seq![60u8, 47, 104, 112, 58, 116, 114, 62]
}

pub(crate) fn tr_close_bytes() -> (r: Vec<u8>)
    ensures
        r@ == tr_close(),
        all_ascii(r@),
{
    let v: Vec<u8> = vec![60u8, 47, 104, 112, 58, 116, 114, 62];
    assert(v@ =~= tr_close());
    v
}

/// The bytes of `<hp:tc`.
pub open spec fn tc_open() -> Seq<u8> {
    seq![60u8, 104, 112, 58, 116, 99]
}

pub(crate) fn tc_open_bytes() -> (r: Vec<u8>)
    ensures
        r@ == tc_open(),
        all_ascii(r@),
{
    let v: Vec<u8> = vec![60u8, 104, 112, 58, 116, 99];
    assert(v@ =~= tc_open());
    v
}

/// The bytes of `</hp:tc>`.
pub open spec fn tc_close() -> Seq<u8> {
    seq![60u8, 47, 104, 112, 58, 116, 99, 62]
}

pub(crate) fn tc_close_bytes() -> (r: Vec<u8>)
    ensures
        r@ == tc_close(),
        all_ascii(r@),
{
    let v: Vec<u8> = vec![60u8, 47, 104, 112, 58, 116, 99, 62];
    assert(v@ =~= tc_close());
    v
}

/// The bytes of `colSpan`.
pub open spec fn attr_col_span() -> Seq<u8> {
    seq![99u8, 111, 108, 83, 112, 97, 110]
}

pub(crate) fn attr_col_span_bytes() -> (r: Vec<u8>)
    ensures
        r@ == attr_col_span(),
        all_ascii(r@),
{
    let v: Vec<u8> = vec![99u8, 111, 108, 83, 112, 97, 110];
    assert(v@ =~= attr_col_span());
    v
}

/// The bytes of `rowSpan`.
pub open spec fn attr_row_span() -> Seq<u8> {
    seq![114u8, 111, 119, 83, 112, 97, 110]
}

pub(crate) fn attr_row_span_bytes() -> (r: Vec<u8>)
    ensures
        r@ == attr_row_span(),
        all_ascii(r@),
{
    let v: Vec<u8> = vec![114u8, 111, 119, 83, 112, 97, 110];
    assert(v@ =~= attr_row_span());
    v
}

/// The bytes of `rowAddr`.
pub open spec fn attr_row_addr() -> Seq<u8> {
    seq![114u8, 111, 119, 65, 100, 100, 114]
}

pub(crate) fn attr_row_addr_bytes() -> (r: Vec<u8>)
    ensures
        r@ == attr_row_addr(),
        all_ascii(r@),
{
    let v: Vec<u8> = vec![114u8, 111, 119, 65, 100, 100, 114];
    assert(v@ =~= attr_row_addr());
    v
}

/// The bytes of `colAddr`.
pub open spec fn attr_col_addr() -> Seq<u8> {
    seq![99u8, 111, 108, 65, 100, 100, 114]
}

pub(crate) fn attr_col_addr_bytes() -> (r: Vec<u8>)
    ensures
        r@ == attr_col_addr(),
        all_ascii(r@),
{
    let v: Vec<u8> = vec![99u8, 111, 108, 65, 100, 100, 114];
    assert(v@ =~= attr_col_addr());
    v
}

/// The bytes of `rowCnt`.
pub open spec fn attr_row_cnt() -> Seq<u8> {
    seq![114u8, 111, 119, 67, 110, 116]
}

pub(crate) fn attr_row_cnt_bytes() -> (r: Vec<u8>)
    ensures
        r@ == attr_row_cnt(),
        all_ascii(r@),
{
    let v: Vec<u8> = vec![114u8, 111, 119, 67, 110, 116];
    assert(v@ =~= attr_row_cnt());
    v
}

/// The bytes of `unterminated <hh:`.
pub open spec fn msg_unterminated_a() -> Seq<u8> {
    seq![117u8, 110, 116, 101, 114, 109, 105, 110, 97, 116, 101, 100, 32, 60, 104, 104, 58]
}

pub(crate) fn msg_unterminated_a_bytes() -> (r: Vec<u8>)
    ensures
        r@ == msg_unterminated_a(),
        all_ascii(r@),
{
    let v: Vec<u8> = vec![117u8, 110, 116, 101, 114, 109, 105, 110, 97, 116, 101, 100, 32, 60, 104, 104, 58];
    assert(v@ =~= msg_unterminated_a());
    v
}

/// The bytes of ` ...> at offset `.
pub open spec fn msg_unterminated_b() -> Seq<u8> {
    seq![32u8, 46, 46, 46, 62, 32, 97, 116, 32, 111, 102, 102, 115, 101, 116, 32]
}

pub(crate) fn msg_unterminated_b_bytes() -> (r: Vec<u8>)
    ensures
        r@ == msg_unterminated_b(),
        all_ascii(r@),
{
    let v: Vec<u8> = vec![32u8, 46, 46, 46, 62, 32, 97, 116, 32, 111, 102, 102, 115, 101, 116, 32];
    assert(v@ =~= msg_unterminated_b());
    v
}

/// The bytes of `missing id attr in <hh:`.
pub open spec fn msg_missing_id_a() -> Seq<u8> {
    seq![109u8, 105, 115, 115, 105, 110, 103, 32, 105, 100, 32, 97, 116, 116, 114, 32, 105, 110, 32, 60, 104, 104, 58]
}

pub(crate) fn msg_missing_id_a_bytes() -> (r: Vec<u8>)
    ensures
        r@ == msg_missing_id_a(),
        all_ascii(r@),
{
    let v: Vec<u8> = vec![109u8, 105, 115, 115, 105, 110, 103, 32, 105, 100, 32, 97, 116, 116, 114, 32, 105, 110, 32, 60, 104, 104, 58];
    assert(v@ =~= msg_missing_id_a());
    v
}

/// The bytes of `> near offset `.
pub open spec fn msg_missing_id_b() -> Seq<u8> {
    seq![62u8, 32, 110, 101, 97, 114, 32, 111, 102, 102, 115, 101, 116, 32]
}

pub(crate) fn msg_missing_id_b_bytes() -> (r: Vec<u8>)
    ensures
        r@ == msg_missing_id_b(),
        all_ascii(r@),
{
    let v: Vec<u8> = vec![62u8, 32, 110, 101, 97, 114, 32, 111, 102, 102, 115, 101, 116, 32];
    assert(v@ =~= msg_missing_id_b());
    v
}

/// The bytes of `"> definition`.
pub open spec fn msg_unterminated_def_b() -> Seq<u8> {
    seq![34u8, 62, 32, 100, 101, 102, 105, 110, 105, 116, 105, 111, 110]
}

pub(crate) fn msg_unterminated_def_b_bytes() -> (r: Vec<u8>)
    ensures
        r@ == msg_unterminated_def_b(),
        all_ascii(r@),
{
    let v: Vec<u8> = vec![34u8, 62, 32, 100, 101, 102, 105, 110, 105, 116, 105, 111, 110];
    assert(v@ =~= msg_unterminated_def_b());
    v
}

/// The bytes of `no top-level <hp:p> in fragment`.
pub open spec fn msg_no_p() -> Seq<u8> {
    seq![110u8, 111, 32, 116, 111, 112, 45, 108, 101, 118, 101, 108, 32, 60, 104, 112, 58, 112, 62, 32, 105, 110, 32, 102, 114, 97, 103, 109, 101, 110, 116]
}

pub(crate) fn msg_no_p_bytes() -> (r: Vec<u8>)
    ensures
        r@ == msg_no_p(),
        all_ascii(r@),
{
    let v: Vec<u8> = vec![110u8, 111, 32, 116, 111, 112, 45, 108, 101, 118, 101, 108, 32, 60, 104, 112, 58, 112, 62, 32, 105, 110, 32, 102, 114, 97, 103, 109, 101, 110, 116];
    assert(v@ =~= msg_no_p());
    v
}

/// The bytes of `unclosed <hp:p> in fragment tail`.
pub open spec fn msg_unclosed_tail() -> Seq<u8> {
    seq![117u8, 110, 99, 108, 111, 115, 101, 100, 32, 60, 104, 112, 58, 112, 62, 32, 105, 110, 32, 102, 114, 97, 103, 109, 101, 110, 116, 32, 116, 97, 105, 108]
}

pub(crate) fn msg_unclosed_tail_bytes() -> (r: Vec<u8>)
    ensures
        r@ == msg_unclosed_tail(),
        all_ascii(r@),
{
    let v: Vec<u8> = vec![117u8, 110, 99, 108, 111, 115, 101, 100, 32, 60, 104, 112, 58, 112, 62, 32, 105, 110, 32, 102, 114, 97, 103, 109, 101, 110, 116, 32, 116, 97, 105, 108];
    assert(v@ =~= msg_unclosed_tail());
    v
}

/// The bytes of `no top-level <hp:p> found in fragment`.
pub open spec fn msg_no_p_found() -> Seq<u8> {
    seq![110u8, 111, 32, 116, 111, 112, 45, 108, 101, 118, 101, 108, 32, 60, 104, 112, 58, 112, 62, 32, 102, 111, 117, 110, 100, 32, 105, 110, 32, 102, 114, 97, 103, 109, 101, 110, 116]
}

pub(crate) fn msg_no_p_found_bytes() -> (r: Vec<u8>)
    ensures
        r@ == msg_no_p_found(),
        all_ascii(r@),
{
    let v: Vec<u8> = vec![110u8, 111, 32, 116, 111, 112, 45, 108, 101, 118, 101, 108, 32, 60, 104, 112, 58, 112, 62, 32, 102, 111, 117, 110, 100, 32, 105, 110, 32, 102, 114, 97, 103, 109, 101, 110, 116];
    assert(v@ =~= msg_no_p_found());
    v
}

/// The bytes of `after_para_idx `.
pub open spec fn msg_idx_a() -> Seq<u8> {
    seq![97u8, 102, 116, 101, 114, 95, 112, 97, 114, 97, 95, 105, 100, 120, 32]
}

pub(crate) fn msg_idx_a_bytes() -> (r: Vec<u8>)
    ensures
        r@ == msg_idx_a(),
        all_ascii(r@),
{
    let v: Vec<u8> = vec![97u8, 102, 116, 101, 114, 95, 112, 97, 114, 97, 95, 105, 100, 120, 32];
    assert(v@ =~= msg_idx_a());
    v
}

/// The bytes of ` out of range (section has `.
pub open spec fn msg_idx_b() -> Seq<u8> {
    seq![32u8, 111, 117, 116, 32, 111, 102, 32, 114, 97, 110, 103, 101, 32, 40, 115, 101, 99, 116, 105, 111, 110, 32, 104, 97, 115, 32]
}

pub(crate) fn msg_idx_b_bytes() -> (r: Vec<u8>)
    ensures
        r@ == msg_idx_b(),
        all_ascii(r@),
{
    let v: Vec<u8> = vec![32u8, 111, 117, 116, 32, 111, 102, 32, 114, 97, 110, 103, 101, 32, 40, 115, 101, 99, 116, 105, 111, 110, 32, 104, 97, 115, 32];
    assert(v@ =~= msg_idx_b());
    v
}

/// The bytes of ` top-level paragraphs)`.
pub open spec fn msg_idx_c() -> Seq<u8> {
    seq![32u8, 116, 111, 112, 45, 108, 101, 118, 101, 108, 32, 112, 97, 114, 97, 103, 114, 97, 112, 104, 115, 41]
}

pub(crate) fn msg_idx_c_bytes() -> (r: Vec<u8>)
    ensures
        r@ == msg_idx_c(),
        all_ascii(r@),
{
    let v: Vec<u8> = vec![32u8, 116, 111, 112, 45, 108, 101, 118, 101, 108, 32, 112, 97, 114, 97, 103, 114, 97, 112, 104, 115, 41];
    assert(v@ =~= msg_idx_c());
    v
}

/// The bytes of `unbalanced </hp:p> in section`.
pub open spec fn msg_unbalanced_p() -> Seq<u8> {
    seq![117u8, 110, 98, 97, 108, 97, 110, 99, 101, 100, 32, 60, 47, 104, 112, 58, 112, 62, 32, 105, 110, 32, 115, 101, 99, 116, 105, 111, 110]
}

pub(crate) fn msg_unbalanced_p_bytes() -> (r: Vec<u8>)
    ensures
        r@ == msg_unbalanced_p(),
        all_ascii(r@),
{
    let v: Vec<u8> = vec![117u8, 110, 98, 97, 108, 97, 110, 99, 101, 100, 32, 60, 47, 104, 112, 58, 112, 62, 32, 105, 110, 32, 115, 101, 99, 116, 105, 111, 110];
    assert(v@ =~= msg_unbalanced_p());
    v
}

/// The bytes of `unbalanced </hp:subList> in section`.
pub open spec fn msg_unbalanced_sublist() -> Seq<u8> {
    seq![117u8, 110, 98, 97, 108, 97, 110, 99, 101, 100, 32, 60, 47, 104, 112, 58, 115, 117, 98, 76, 105, 115, 116, 62, 32, 105, 110, 32, 115, 101, 99, 116, 105, 111, 110]
}

pub(crate) fn msg_unbalanced_sublist_bytes() -> (r: Vec<u8>)
    ensures
        r@ == msg_unbalanced_sublist(),
        all_ascii(r@),
{
    let v: Vec<u8> = vec![117u8, 110, 98, 97, 108, 97, 110, 99, 101, 100, 32, 60, 47, 104, 112, 58, 115, 117, 98, 76, 105, 115, 116, 62, 32, 105, 110, 32, 115, 101, 99, 116, 105, 111, 110];
    assert(v@ =~= msg_unbalanced_sublist());
    v
}

/// The bytes of `section ended with unbalanced <hp:p> depth=`.
pub open spec fn msg_depth() -> Seq<u8> {
    seq![115u8, 101, 99, 116, 105, 111, 110, 32, 101, 110, 100, 101, 100, 32, 119, 105, 116, 104, 32, 117, 110, 98, 97, 108, 97, 110, 99, 101, 100, 32, 60, 104, 112, 58, 112, 62, 32, 100, 101, 112, 116, 104, 61]
}

pub(crate) fn msg_depth_bytes() -> (r: Vec<u8>)
    ensures
        r@ == msg_depth(),
        all_ascii(r@),
{
    let v: Vec<u8> = vec![115u8, 101, 99, 116, 105, 111, 110, 32, 101, 110, 100, 101, 100, 32, 119, 105, 116, 104, 32, 117, 110, 98, 97, 108, 97, 110, 99, 101, 100, 32, 60, 104, 112, 58, 112, 62, 32, 100, 101, 112, 116, 104, 61];
    assert(v@ =~= msg_depth());
    v
}

/// The bytes of `unbalanced <hp:tbl> at offset `.
pub open spec fn msg_unbalanced_tbl() -> Seq<u8> {
    seq![117u8, 110, 98, 97, 108, 97, 110, 99, 101, 100, 32, 60, 104, 112, 58, 116, 98, 108, 62, 32, 97, 116, 32, 111, 102, 102, 115, 101, 116, 32]
}

pub(crate) fn msg_unbalanced_tbl_bytes() -> (r: Vec<u8>)
    ensures
        r@ == msg_unbalanced_tbl(),
        all_ascii(r@),
{
    let v: Vec<u8> = vec![117u8, 110, 98, 97, 108, 97, 110, 99, 101, 100, 32, 60, 104, 112, 58, 116, 98, 108, 62, 32, 97, 116, 32, 111, 102, 102, 115, 101, 116, 32];
    assert(v@ =~= msg_unbalanced_tbl());
    v
}

/// The bytes of `table open tag missing '>'`.
pub open spec fn msg_tbl_open_gt() -> Seq<u8> {
    seq![116u8, 97, 98, 108, 101, 32, 111, 112, 101, 110, 32, 116, 97, 103, 32, 109, 105, 115, 115, 105, 110, 103, 32, 39, 62, 39]
}

pub(crate) fn msg_tbl_open_gt_bytes() -> (r: Vec<u8>)
    ensures
        r@ == msg_tbl_open_gt(),
        all_ascii(r@),
{
    let v: Vec<u8> = vec![116u8, 97, 98, 108, 101, 32, 111, 112, 101, 110, 32, 116, 97, 103, 32, 109, 105, 115, 115, 105, 110, 103, 32, 39, 62, 39];
    assert(v@ =~= msg_tbl_open_gt());
    v
}

/// The bytes of `cell open tag missing '>'`.
pub open spec fn msg_cell_open_gt() -> Seq<u8> {
    seq![99u8, 101, 108, 108, 32, 111, 112, 101, 110, 32, 116, 97, 103, 32, 109, 105, 115, 115, 105, 110, 103, 32, 39, 62, 39]
}

pub(crate) fn msg_cell_open_gt_bytes() -> (r: Vec<u8>)
    ensures
        r@ == msg_cell_open_gt(),
        all_ascii(r@),
{
    let v: Vec<u8> = vec![99u8, 101, 108, 108, 32, 111, 112, 101, 110, 32, 116, 97, 103, 32, 109, 105, 115, 115, 105, 110, 103, 32, 39, 62, 39];
    assert(v@ =~= msg_cell_open_gt());
    v
}

/// The bytes of `unbalanced `.
pub open spec fn msg_unbalanced() -> Seq<u8> {
    seq![117u8, 110, 98, 97, 108, 97, 110, 99, 101, 100, 32]
}

pub(crate) fn msg_unbalanced_bytes() -> (r: Vec<u8>)
    ensures
        r@ == msg_unbalanced(),
        all_ascii(r@),
{
    let v: Vec<u8> = vec![117u8, 110, 98, 97, 108, 97, 110, 99, 101, 100, 32];
    assert(v@ =~= msg_unbalanced());
    v
}

} // verus!
