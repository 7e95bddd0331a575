//! Pasting an HWPX fragment into a loaded document through its kept raw XML.

use vstd::prelude::*;
use super::{DocumentCore, DocumentEvent};
use crate::fragment_paste::{FragmentPasteError, IdRemap, SourceDefinitions, paste_fragment_into_section};
use crate::fragment_paste::types::{error_is, fragment_error_message};
use crate::fragment_paste::paras::PasteOutcome;
use crate::fragment_paste::tables::fragment_paste_outcome;
use crate::text::{utf8_of, all_ascii, string_of_ascii, lemma_concat_ascii};
use crate::decimal::{decimal, decimal_u64, lemma_decimal_props, decimal_chars, decimal_string};
use crate::scan::push_all;
use crate::model::{DocInfo, Section};

verus! {

/// The result of a paste into the document.
#[derive(Debug)]
pub struct PasteInDocumentResult {
    pub id_remap: IdRemap,
    pub inserted_para_count: usize,
}

/// Errors of a paste into the document.
#[derive(Debug)]
pub enum PasteInDocumentError {
    /// The document was not loaded from HWPX (no raw XML kept).
    NoSourceXml,
    /// `idx` is not a kept section (`count` are kept).
    SectionOutOfRange { idx: usize, count: usize },
    /// The raw-XML paste failed.
    Paste(FragmentPasteError),
    /// The IR does not match the raw XML.
    Reparse(String),
}

impl From<FragmentPasteError> for PasteInDocumentError {
    fn from(e: FragmentPasteError) -> (r: Self) {
        PasteInDocumentError::Paste(e)
    }
}

impl vstd::std_specs::convert::FromSpecImpl<FragmentPasteError> for PasteInDocumentError {
    open spec fn obeys_from_spec() -> bool {
        true
    }

    open spec fn from_spec(e: FragmentPasteError) -> Self {
        PasteInDocumentError::Paste(e)
    }
}

/// What an error says.
pub open spec fn paste_error_message(e: PasteInDocumentError) -> Seq<char> {
    match e {
        PasteInDocumentError::NoSourceXml => "document was not loaded from HWPX (no source XML preserved)"@,
        PasteInDocumentError::SectionOutOfRange { idx, count } => "section_idx "@ + decimal_chars(idx as nat)
            + " out of range (have "@ + decimal_chars(count as nat) + ")"@,
        PasteInDocumentError::Paste(x) => "paste failed: "@ + fragment_error_message(x),
        PasteInDocumentError::Reparse(d) => "IR reparse failed: "@ + d@,
    }
}

impl PasteInDocumentError {
    /// The message of the error.
    pub fn message(&self) -> (r: String)
        ensures
            r@ == paste_error_message(*self),
    {
        match self {
            PasteInDocumentError::NoSourceXml => "document was not loaded from HWPX (no source XML preserved)".to_owned(),
            PasteInDocumentError::SectionOutOfRange { idx, count } => {
                let mut m = "section_idx ".to_owned();
                let a = decimal_string(*idx);
                m.append(a.as_str());
                m.append(" out of range (have ");
                let b = decimal_string(*count);
                m.append(b.as_str());
                m.append(")");
                m
            },
            PasteInDocumentError::Paste(x) => {
                let mut m = "paste failed: ".to_owned();
                let inner = x.message();
                m.append(inner.as_str());
                m
            },
            PasteInDocumentError::Reparse(d) => {
                let mut m = "IR reparse failed: ".to_owned();
                m.append(d.as_str());
                m
            },
        }
    }
}

/// `source XML section `.
pub open spec fn msg_no_ir_a() -> Seq<u8> {
    seq![115u8, 111, 117, 114, 99, 101, 32, 88, 77, 76, 32, 115, 101, 99, 116, 105, 111, 110, 32]
}

/// ` has no matching IR section (have `.
pub open spec fn msg_no_ir_b() -> Seq<u8> {
    seq![32u8, 104, 97, 115, 32, 110, 111, 32, 109, 97, 116, 99, 104, 105, 110, 103, 32, 73, 82, 32,
        115, 101, 99, 116, 105, 111, 110, 32, 40, 104, 97, 118, 101, 32]
}

/// `source XML section <idx> has no matching IR section (have <count>)`.
pub open spec fn msg_no_ir(idx: nat, count: nat) -> Seq<u8> {
    msg_no_ir_a() + decimal(idx) + msg_no_ir_b() + decimal(count) + seq![41u8]
}

fn no_ir_message(idx: usize, count: usize) -> (r: String)
    ensures
        utf8_of(r@) == msg_no_ir(idx as nat, count as nat),
{
    let a: Vec<u8> = vec![115u8, 111, 117, 114, 99, 101, 32, 88, 77, 76, 32, 115, 101, 99, 116, 105, 111, 110, 32];
    let b: Vec<u8> = vec![32u8, 104, 97, 115, 32, 110, 111, 32, 109, 97, 116, 99, 104, 105, 110, 103, 32, 73, 82, 32,
        115, 101, 99, 116, 105, 111, 110, 32, 40, 104, 97, 118, 101, 32];
    assert(a@ =~= msg_no_ir_a());
    assert(b@ =~= msg_no_ir_b());
    let mut m: Vec<u8> = Vec::new();
    push_all(&mut m, a.as_slice());
    let d1 = decimal_u64(idx as u64);
    push_all(&mut m, d1.as_slice());
    push_all(&mut m, b.as_slice());
    let d2 = decimal_u64(count as u64);
    push_all(&mut m, d2.as_slice());
    m.push(41u8);
    proof {
        lemma_decimal_props(idx as nat);
        lemma_decimal_props(count as nat);
        assert(all_ascii(a@));
        assert(all_ascii(b@));
        lemma_concat_ascii(a@, d1@);
        lemma_concat_ascii(a@ + d1@, b@);
        lemma_concat_ascii(a@ + d1@ + b@, d2@);
        lemma_concat_ascii(a@ + d1@ + b@ + d2@, seq![41u8]);
        assert(m@ =~= msg_no_ir(idx as nat, count as nat));
    }
    string_of_ascii(m)
}

/// The kept raw XML checks of a paste into section `idx` pass.
pub open spec fn paste_checks_pass(core: DocumentCore, idx: int) -> bool {
    &&& core.has_source_xmls_spec()
    &&& idx < core.source_section_xmls@.len()
    &&& idx < core.document.sections@.len()
}

/// The editing state after pasting into section `idx` after paragraph
/// `after`: the section XML becomes `ns` and the header XML `h`, the other
/// section XMLs stay, the section is marked dirty (the dirty list grows with
/// `true` up to it), its dirty paragraphs are reset, every cached page tree is
/// dropped and the paste is logged. The IR is left as it is: re-reading the
/// new XML into it is the caller's next step, with `install_reparsed`.
pub open spec fn pasted_state(old: DocumentCore, new: DocumentCore, idx: int, after: int, ns: Seq<u8>, h: Seq<u8>) -> bool {
    &&& new.document == old.document
    &&& new.source_section_xmls@.len() == old.source_section_xmls@.len()
    &&& utf8_of(new.source_section_xmls@[idx]@) == ns
    &&& forall|j: int| 0 <= j < old.source_section_xmls@.len() && j != idx
        ==> #[trigger] new.source_section_xmls@[j] == old.source_section_xmls@[j]
    &&& utf8_of(new.source_header_xml@) == h
    &&& new.dirty_sections@ == (if idx < old.dirty_sections@.len() {
        old.dirty_sections@.update(idx, true)
    } else {
        old.dirty_sections@ + Seq::new((idx + 1 - old.dirty_sections@.len()) as nat, |k: int| true)
    })
    &&& new.dirty_paragraphs@ == (if idx < old.dirty_paragraphs@.len() {
        old.dirty_paragraphs@.update(idx, None)
    } else {
        old.dirty_paragraphs@
    })
    &&& new.page_tree_cache@ == Seq::new(old.page_tree_cache@.len(), |k: int| None::<super::CachedPageTree>)
    &&& new.event_log@ == old.event_log@.push(DocumentEvent::FragmentPasted { section: idx as usize, para: after as usize })
}

/// The editing state after an edit of section `idx` logged as a fragment
/// pasted after paragraph `after`: the section is marked dirty (the dirty
/// list grows with `true` up to it), its dirty paragraphs are reset, every
/// cached page tree is dropped and the edit is logged.
pub open spec fn edit_marked(old: DocumentCore, new: DocumentCore, idx: int, after: int) -> bool {
    &&& new.dirty_sections@ == (if idx < old.dirty_sections@.len() {
        old.dirty_sections@.update(idx, true)
    } else {
        old.dirty_sections@ + Seq::new((idx + 1 - old.dirty_sections@.len()) as nat, |k: int| true)
    })
    &&& new.dirty_paragraphs@ == (if idx < old.dirty_paragraphs@.len() {
        old.dirty_paragraphs@.update(idx, None)
    } else {
        old.dirty_paragraphs@
    })
    &&& new.page_tree_cache@ == Seq::new(old.page_tree_cache@.len(), |k: int| None::<super::CachedPageTree>)
    &&& new.event_log@ == old.event_log@.push(DocumentEvent::FragmentPasted { section: idx as usize, para: after as usize })
}

/// The definitions in place after a re-read: the re-read ones, except that
/// an empty re-read binary data list leaves the document's own list.
pub open spec fn installed_doc_info(old: DocInfo, reread: DocInfo) -> DocInfo {
    if reread.bin_data_list@.len() == 0 {
        DocInfo { bin_data_list: old.bin_data_list, ..reread }
    } else {
        reread
    }
}

impl DocumentCore {
    /// Puts a re-read of the header and of section `section_idx` in place
    /// after a paste: `doc_info` becomes the document's definitions, keeping
    /// the document's binary data list when the re-read one is empty, and
    /// `section` replaces the section. Nothing else changes.
    pub fn install_reparsed(&mut self, section_idx: usize, doc_info: DocInfo, section: Section)
        requires
            section_idx < old(self).document.sections@.len(),
        ensures
            final(self).document.doc_info == installed_doc_info(old(self).document.doc_info, doc_info),
            final(self).document.sections@ == old(self).document.sections@.update(section_idx as int, section),
            final(self).source_section_xmls == old(self).source_section_xmls,
            final(self).source_header_xml == old(self).source_header_xml,
            final(self).dirty_sections == old(self).dirty_sections,
            final(self).dirty_paragraphs == old(self).dirty_paragraphs,
            final(self).page_tree_cache == old(self).page_tree_cache,
            final(self).event_log == old(self).event_log,
    {
        let mut doc_info = doc_info;
        if doc_info.bin_data_list.len() == 0 {
            std::mem::swap(&mut doc_info.bin_data_list, &mut self.document.doc_info.bin_data_list);
        }
        self.document.doc_info = doc_info;
        self.document.sections.set(section_idx, section);
    }

    pub(crate) fn mark_pasted(&mut self, section_idx: usize, after_para_idx: usize)
        ensures
            edit_marked(*old(self), *final(self), section_idx as int, after_para_idx as int),
            final(self).document == old(self).document,
            final(self).source_section_xmls == old(self).source_section_xmls,
            final(self).source_header_xml == old(self).source_header_xml,
            final(self).dirty_sections@ == (if section_idx < old(self).dirty_sections@.len() {
                old(self).dirty_sections@.update(section_idx as int, true)
            } else {
                old(self).dirty_sections@ + Seq::new(
                    (section_idx + 1 - old(self).dirty_sections@.len()) as nat,
                    |k: int| true,
                )
            }),
            final(self).dirty_paragraphs@ == (if section_idx < old(self).dirty_paragraphs@.len() {
                old(self).dirty_paragraphs@.update(section_idx as int, None)
            } else {
                old(self).dirty_paragraphs@
            }),
            final(self).page_tree_cache@ == Seq::new(
                old(self).page_tree_cache@.len(),
                |k: int| None::<super::CachedPageTree>,
            ),
            final(self).event_log@ == old(self).event_log@.push(
                DocumentEvent::FragmentPasted { section: section_idx, para: after_para_idx },
            ),
    {
        let ghost s0 = *self;
        let ghost d0 = self.dirty_sections@;
        if section_idx < self.dirty_sections.len() {
            self.dirty_sections.set(section_idx, true);
        } else {
            while self.dirty_sections.len() <= section_idx
                invariant
                    self.document == s0.document,
                    self.source_section_xmls == s0.source_section_xmls,
                    self.source_header_xml == s0.source_header_xml,
                    self.dirty_paragraphs == s0.dirty_paragraphs,
                    self.page_tree_cache == s0.page_tree_cache,
                    self.event_log == s0.event_log,
                    d0.len() <= self.dirty_sections@.len() <= section_idx + 1,
                    self.dirty_sections@ =~= d0 + Seq::new((self.dirty_sections@.len() - d0.len()) as nat, |k: int| true),
                decreases section_idx + 1 - self.dirty_sections@.len(),
            {
                self.dirty_sections.push(true);
            }
        }
        if section_idx < self.dirty_paragraphs.len() {
            self.dirty_paragraphs.set(section_idx, None);
        }
        let ghost s1 = *self;
        let n = self.page_tree_cache.len();
        let ghost p0 = self.page_tree_cache@;
        let mut k: usize = 0;
        while k < n
            invariant
                self.document == s1.document,
                self.source_section_xmls == s1.source_section_xmls,
                self.source_header_xml == s1.source_header_xml,
                self.dirty_paragraphs == s1.dirty_paragraphs,
                self.dirty_sections == s1.dirty_sections,
                self.event_log == s1.event_log,
                n == p0.len(),
                k <= n,
                self.page_tree_cache@.len() == n,
                forall|j: int| 0 <= j < k ==> self.page_tree_cache@[j] is None,
            decreases n - k,
        {
            self.page_tree_cache.set(k, None);
            k = k + 1;
        }
        assert(self.page_tree_cache@ =~= Seq::new(p0.len(), |k: int| None::<super::CachedPageTree>));
        self.event_log.push(DocumentEvent::FragmentPasted { section: section_idx, para: after_para_idx });
    }

    /// Pastes `fragment_xml` after the top-level paragraph `after_para_idx` of
    /// section `section_idx` through the kept raw XML (`paste_fragment_into_section`),
    /// stores the new section and header XML, marks the section dirty, drops
    /// the cached page trees and logs the paste.
    ///
    /// Re-reading the new header and section XML into the IR takes an HWPX
    /// reader, which this library does not have: the IR is left as it is here,
    /// and the caller hands what it read from the new XML to
    /// `install_reparsed`, which puts it in place.
    pub fn paste_hwpx_fragment_in_document_native(
        &mut self,
        section_idx: usize,
        after_para_idx: usize,
        fragment_xml: &str,
        source: &SourceDefinitions,
    ) -> (r: Result<PasteInDocumentResult, PasteInDocumentError>)
        requires
            paste_checks_pass(*old(self), section_idx as int) ==> !(fragment_paste_outcome(
                old(self).source_section_xmls@[section_idx as int]@,
                old(self).source_header_xml@,
                after_para_idx as int,
                fragment_xml@,
                *source,
            ) is Panics),
        ensures
            !old(self).has_source_xmls_spec() ==> (r matches Err(PasteInDocumentError::NoSourceXml)
                && *final(self) == *old(self)),
            old(self).has_source_xmls_spec() && section_idx >= old(self).source_section_xmls@.len()
                ==> (r matches Err(PasteInDocumentError::SectionOutOfRange { idx, count })
                && idx == section_idx && count == old(self).source_section_xmls@.len()
                && *final(self) == *old(self)),
            old(self).has_source_xmls_spec() && section_idx < old(self).source_section_xmls@.len()
                && section_idx >= old(self).document.sections@.len() ==> (r matches Err(
                PasteInDocumentError::Reparse(m),
            ) && utf8_of(m@) == msg_no_ir(section_idx as nat, old(self).document.sections@.len())
                && *final(self) == *old(self)),
            paste_checks_pass(*old(self), section_idx as int) ==> match fragment_paste_outcome(
                old(self).source_section_xmls@[section_idx as int]@,
                old(self).source_header_xml@,
                after_para_idx as int,
                fragment_xml@,
                *source,
            ) {
                PasteOutcome::Done(h, rv, n, ns) => r matches Ok(res) && res.id_remap@ == rv
                    && res.inserted_para_count == n && pasted_state(
                    *old(self),
                    *final(self),
                    section_idx as int,
                    after_para_idx as int,
                    ns,
                    h,
                ),
                PasteOutcome::Failed(h, e) => r matches Err(PasteInDocumentError::Paste(x)) && error_is(x, e)
                    && *final(self) == *old(self),
                PasteOutcome::Panics => false,
            },
    {
        if !self.has_source_xmls() {
            return Err(PasteInDocumentError::NoSourceXml);
        }
        let section_count = self.source_section_xmls.len();
        if section_idx >= section_count {
            return Err(PasteInDocumentError::SectionOutOfRange { idx: section_idx, count: section_count });
        }
        if section_idx >= self.document.sections.len() {
            return Err(PasteInDocumentError::Reparse(no_ir_message(section_idx, self.document.sections.len())));
        }
        let section_xml = self.source_section_xmls[section_idx].clone();
        let mut header_xml = self.source_header_xml.clone();
        let paste_result = match paste_fragment_into_section(
            section_xml.as_str(),
            &mut header_xml,
            after_para_idx,
            fragment_xml,
            source,
        ) {
            Ok(p) => p,
            Err(e) => {
                return Err(PasteInDocumentError::Paste(e));
            },
        };
        let ghost old_self = *self;
        self.source_section_xmls.set(section_idx, paste_result.new_section_xml);
        self.source_header_xml = header_xml;
        self.mark_pasted(section_idx, after_para_idx);
        proof {
            assert forall|j: int| 0 <= j < old_self.source_section_xmls@.len() && j != section_idx
                implies #[trigger] self.source_section_xmls@[j] == old_self.source_section_xmls@[j] by {}
        }
        Ok(PasteInDocumentResult {
            id_remap: paste_result.id_remap,
            inserted_para_count: paste_result.inserted_para_count,
        })
    }
}

} // verus!
