//! Data exchanged by the fragment-paste operations.

use std::collections::HashMap;
use vstd::prelude::*;
use crate::text::utf8_of;

verus! {

/// Raw header definitions of an external HWPX document (such as a form
/// template). Each field holds one or more `<hh:charPr id="N" ...>...</hh:charPr>`
/// style definitions of one kind, joined by newlines.
#[derive(Debug, Clone)]
pub struct SourceDefinitions {
    pub char_prs: String,
    pub para_prs: String,
    pub styles: String,
    pub border_fills: String,
}

impl Default for SourceDefinitions {
    fn default() -> (r: Self)
        ensures
            r.char_prs@ == Seq::<char>::empty(),
            r.para_prs@ == Seq::<char>::empty(),
            r.styles@ == Seq::<char>::empty(),
            r.border_fills@ == Seq::<char>::empty(),
    {
        SourceDefinitions {
            char_prs: String::new(),
            para_prs: String::new(),
            styles: String::new(),
            border_fills: String::new(),
        }
    }
}

/// Source ID (external document) to target ID (current document) for each
/// definition kind.
#[derive(Debug)]
pub struct IdRemap {
    pub char_pr: HashMap<u32, u32>,
    pub para_pr: HashMap<u32, u32>,
    pub style: HashMap<u32, u32>,
    pub border_fill: HashMap<u32, u32>,
}

/// The four mappings of an `IdRemap`.
pub struct RemapView {
    pub char_pr: Map<u32, u32>,
    pub para_pr: Map<u32, u32>,
    pub style: Map<u32, u32>,
    pub border_fill: Map<u32, u32>,
}

impl View for IdRemap {
    type V = RemapView;

    open spec fn view(&self) -> RemapView {
        RemapView {
            char_pr: self.char_pr@,
            para_pr: self.para_pr@,
            style: self.style@,
            border_fill: self.border_fill@,
        }
    }
}

pub open spec fn empty_remap() -> RemapView {
    RemapView {
        char_pr: Map::empty(),
        para_pr: Map::empty(),
        style: Map::empty(),
        border_fill: Map::empty(),
    }
}

impl Default for IdRemap {
    fn default() -> (r: Self)
        ensures
            r@ == empty_remap(),
    {
        IdRemap {
            char_pr: HashMap::new(),
            para_pr: HashMap::new(),
            style: HashMap::new(),
            border_fill: HashMap::new(),
        }
    }
}

/// Errors of the fragment-paste operations.
#[derive(Debug, PartialEq, Eq)]
pub enum FragmentPasteError {
    /// A definition in the source definitions (or the header) lacks a parsable
    /// `id` attribute or is not terminated.
    MalformedSourceDefinitions(String),
    /// The header has no closing tag of the matching reference list, so there
    /// is no place to insert new definitions.
    HeaderInsertionPointMissing(&'static str),
    /// The fragment, or the section after the paste, is not well formed.
    MalformedFragment(String),
}

/// What an error says: `malformed source definitions: <detail>`,
/// `header insertion point missing for <tag>` or `malformed fragment: <detail>`.
pub open spec fn fragment_error_message(e: FragmentPasteError) -> Seq<char> {
    match e {
        FragmentPasteError::MalformedSourceDefinitions(d) => "malformed source definitions: "@ + d@,
        FragmentPasteError::HeaderInsertionPointMissing(tag) => "header insertion point missing for "@ + tag@,
        FragmentPasteError::MalformedFragment(d) => "malformed fragment: "@ + d@,
    }
}

impl FragmentPasteError {
    /// The message of the error.
    pub fn message(&self) -> (r: String)
        ensures
            r@ == fragment_error_message(*self),
    {
        match self {
            FragmentPasteError::MalformedSourceDefinitions(d) => {
                let mut m = "malformed source definitions: ".to_owned();
                m.append(d.as_str());
                m
            },
            FragmentPasteError::HeaderInsertionPointMissing(tag) => {
                let mut m = "header insertion point missing for ".to_owned();
                m.append(tag);
                m
            },
            FragmentPasteError::MalformedFragment(d) => {
                let mut m = "malformed fragment: ".to_owned();
                m.append(d.as_str());
                m
            },
        }
    }
}

/// The four kinds of header definitions that fragments refer to.
#[derive(Debug, Clone, Copy, PartialEq, Eq)]
pub enum DefKind {
    CharPr,
    ParaPr,
    Style,
    BorderFill,
}

/// A fragment-paste error with its message as UTF-8 bytes.
pub enum PasteErr {
    MalformedSourceDefinitions(Seq<u8>),
    HeaderInsertionPointMissing(DefKind),
    MalformedFragment(Seq<u8>),
}

/// The representative closing tag of a kind's reference list (the first
/// candidate that is searched for).
pub open spec fn ref_list_close_tag_spec(kind: DefKind) -> &'static str {
    match kind {
        DefKind::CharPr => "</hh:charPropertyList>",
        DefKind::ParaPr => "</hh:paraPropertyList>",
        DefKind::Style => "</hh:styleList>",
        DefKind::BorderFill => "</hh:borderFillList>",
    }
}

/// `e` is the error described by `v`.
pub open spec fn error_is(e: FragmentPasteError, v: PasteErr) -> bool {
    match v {
        PasteErr::MalformedSourceDefinitions(m) => e matches FragmentPasteError::MalformedSourceDefinitions(s)
            && utf8_of(s@) == m,
        PasteErr::HeaderInsertionPointMissing(k) => e matches FragmentPasteError::HeaderInsertionPointMissing(t)
            && t == ref_list_close_tag_spec(k),
        PasteErr::MalformedFragment(m) => e matches FragmentPasteError::MalformedFragment(s)
            && utf8_of(s@) == m,
    }
}

/// Result of a paragraph paste.
#[derive(Debug)]
pub struct ParagraphPasteResult {
    pub id_remap: IdRemap,
    pub inserted_para_count: usize,
    pub new_section_xml: String,
}

/// Outcome of opening an HWPX file in the Hancom word processor: it stayed
/// open (accepted), exited on its own with a code (rejected), or the attempt
/// could not run (skipped).
#[derive(Debug, PartialEq, Eq)]
pub enum HwpOpenResult {
    Accepted,
    Rejected(i32),
    Skipped(String),
}

} // verus!
