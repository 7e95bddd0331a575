//! The raw HWPX XML kept from loading: `Contents/section{N}.xml` and
//! `Contents/header.xml`, byte for byte (empty when loaded from HWP).

use vstd::prelude::*;
use super::DocumentCore;

verus! {

impl DocumentCore {
    /// Both the sections and the header of an HWPX source are kept.
    pub open spec fn has_source_xmls_spec(&self) -> bool {
        self.source_section_xmls@.len() > 0 && self.source_header_xml@.len() > 0
    }

    /// The kept raw XML of section `section_idx`, if there is one.
    pub fn get_source_section_xml(&self, section_idx: usize) -> (r: Option<&str>)
        ensures
            section_idx < self.source_section_xmls@.len() ==> (r matches Some(s) && s@
                == self.source_section_xmls@[section_idx as int]@),
            section_idx >= self.source_section_xmls@.len() ==> r is None,
    {
        if section_idx < self.source_section_xmls.len() {
            Some(self.source_section_xmls[section_idx].as_str())
        } else {
            None
        }
    }

    /// The kept raw `header.xml` (empty when none was kept).
    pub fn get_source_header_xml(&self) -> (r: &str)
        ensures
            r@ == self.source_header_xml@,
    {
        self.source_header_xml.as_str()
    }

    /// The number of kept section XMLs.
    pub fn source_section_xml_count(&self) -> (r: usize)
        ensures
            r == self.source_section_xmls@.len(),
    {
        self.source_section_xmls.len()
    }

    /// The raw XML of an HWPX source is kept (some section and a non-empty header).
    pub fn has_source_xmls(&self) -> (r: bool)
        ensures
            r == self.has_source_xmls_spec(),
    {
        self.source_section_xmls.len() > 0 && !self.source_header_xml.as_str().is_empty()
    }
}

} // verus!
