use rhwp::document_core::DocumentCore;

#[test]
fn empty_document_has_no_source_xmls() {
    let core = DocumentCore::new_empty();
    assert!(!core.has_source_xmls());
    assert_eq!(core.source_section_xml_count(), 0);
    assert_eq!(core.get_source_header_xml(), "");
    assert!(core.get_source_section_xml(0).is_none());
}

#[test]
fn out_of_range_section_returns_none() {
    let core = DocumentCore::new_empty();
    assert!(core.get_source_section_xml(0).is_none());
    assert!(core.get_source_section_xml(99).is_none());
}

#[test]
fn manual_mutation_reflected_in_getters() {
    let mut core = DocumentCore::new_empty();
    core.source_section_xmls.push("<section/>".into());
    core.source_header_xml = "<header/>".into();
    assert_eq!(core.get_source_section_xml(0), Some("<section/>"));
    assert_eq!(core.get_source_header_xml(), "<header/>");
    assert!(core.has_source_xmls());

    core.source_section_xmls[0] = "<section><p/></section>".into();
    core.source_header_xml = "<header><charPr/></header>".into();
    assert_eq!(
        core.get_source_section_xml(0),
        Some("<section><p/></section>")
    );
    assert_eq!(core.get_source_header_xml(), "<header><charPr/></header>");
}

#[test]
fn multi_section_indexing_independent() {
    let mut core = DocumentCore::new_empty();
    core.source_section_xmls.push("<a/>".into());
    core.source_section_xmls.push("<b/>".into());
    core.source_section_xmls.push("<c/>".into());
    assert_eq!(core.source_section_xml_count(), 3);
    assert_eq!(core.get_source_section_xml(0), Some("<a/>"));
    assert_eq!(core.get_source_section_xml(1), Some("<b/>"));
    assert_eq!(core.get_source_section_xml(2), Some("<c/>"));
    assert!(core.get_source_section_xml(3).is_none());
}

#[test]
fn header_only_is_not_enough() {
    let mut core = DocumentCore::new_empty();
    core.source_header_xml = "<header/>".into();
    assert!(!core.has_source_xmls());
}
