//! The editing core of a loaded document: its IR, the raw HWPX XML it was
//! loaded from, and the dirty flags, caches and event log of the editor.

pub mod raw_xml;
pub mod paste_in_document;
pub mod cross_document_migrate;
pub mod hwpx_to_hwp;
pub mod common_obj_attr_writer;

use vstd::prelude::*;
use crate::model::Document;

verus! {

/// Events recorded by editing commands.
#[derive(Debug, Clone, Copy, PartialEq, Eq)]
pub enum DocumentEvent {
    /// A fragment was pasted into `section` after paragraph `para`.
    FragmentPasted { section: usize, para: usize },
}

/// A page tree kept by the page-tree cache.
#[derive(Debug, Clone, Copy, PartialEq, Eq)]
pub struct CachedPageTree {
    pub page_index: u32,
}

/// A loaded document with its editing state.
pub struct DocumentCore {
    pub document: Document,
    /// `Contents/section{N}.xml` of an HWPX source, byte for byte (empty for HWP).
    pub source_section_xmls: Vec<String>,
    /// `Contents/header.xml` of an HWPX source, byte for byte (empty for HWP).
    pub source_header_xml: String,
    /// Sections whose layout must be recomputed.
    pub dirty_sections: Vec<bool>,
    /// Per section, the paragraphs whose layout must be recomputed (`None`: all).
    pub dirty_paragraphs: Vec<Option<Vec<bool>>>,
    /// Rendered page trees, per page.
    pub page_tree_cache: Vec<Option<CachedPageTree>>,
    pub event_log: Vec<DocumentEvent>,
}

impl DocumentCore {
    /// An empty document (no sections, no source XML).
    pub fn new_empty() -> (r: Self)
        ensures
            r.document.sections@.len() == 0,
            r.document.doc_info.border_fills@.len() == 0,
            r.document.doc_info.char_shapes@.len() == 0,
            r.document.doc_info.para_shapes@.len() == 0,
            r.document.doc_info.styles@.len() == 0,
            r.document.doc_info.bin_data_list@.len() == 0,
            !r.document.doc_info.raw_stream_dirty,
            r.source_section_xmls@.len() == 0,
            r.source_header_xml@.len() == 0,
            r.dirty_sections@.len() == 0,
            r.dirty_paragraphs@.len() == 0,
            r.page_tree_cache@.len() == 0,
            r.event_log@.len() == 0,
    {
        DocumentCore {
            document: Document {
                doc_info: crate::model::DocInfo {
                    border_fills: Vec::new(),
                    char_shapes: Vec::new(),
                    para_shapes: Vec::new(),
                    styles: Vec::new(),
                    bin_data_list: Vec::new(),
                    raw_stream_dirty: false,
                },
                sections: Vec::new(),
            },
            source_section_xmls: Vec::new(),
            source_header_xml: String::new(),
            dirty_sections: Vec::new(),
            dirty_paragraphs: Vec::new(),
            page_tree_cache: Vec::new(),
            event_log: Vec::new(),
        }
    }
}

} // verus!
