use rhwp::document_core::paste_in_document::PasteInDocumentError;
use rhwp::document_core::{DocumentCore, DocumentEvent};
use rhwp::fragment_paste::{FragmentPasteError, SourceDefinitions};
use rhwp::model::{BinData, DocInfo, Paragraph, Section};

fn fixture_core_with_minimal_hwpx() -> DocumentCore {
    let mut core = DocumentCore::new_empty();
    core.source_header_xml = String::from(
        "<hh:head>\
<hh:charPropertyList><hh:charPr id=\"0\" height=\"1000\"/></hh:charPropertyList>\
<hh:paraPropertyList><hh:paraPr id=\"0\"/></hh:paraPropertyList>\
<hh:styleList><hh:style id=\"0\" name=\"def\"/></hh:styleList>\
<hh:borderFillList></hh:borderFillList>\
</hh:head>",
    );
    core.source_section_xmls.push(String::from(
        "<hs:sec><hp:p paraPrIDRef=\"0\" styleIDRef=\"0\"><hp:run charPrIDRef=\"0\"><hp:t>x</hp:t></hp:run></hp:p></hs:sec>",
    ));
    core.dirty_sections = vec![false];
    core.document.sections.push(Section::default());
    core
}

#[test]
fn errors_when_no_source_xmls() {
    let mut core = DocumentCore::new_empty();
    let source = SourceDefinitions::default();
    let r = core.paste_hwpx_fragment_in_document_native(0, 0, "<hp:p paraPrIDRef=\"0\"/>", &source);
    assert!(matches!(r, Err(PasteInDocumentError::NoSourceXml)));
}

#[test]
fn errors_on_section_out_of_range() {
    let mut core = fixture_core_with_minimal_hwpx();
    let source = SourceDefinitions::default();
    let r = core.paste_hwpx_fragment_in_document_native(5, 0, "<hp:p paraPrIDRef=\"0\"/>", &source);
    assert!(matches!(
        r,
        Err(PasteInDocumentError::SectionOutOfRange { idx: 5, count: 1 })
    ));
}

#[test]
fn paragraph_paste_updates_raw_xml_and_dirty() {
    let mut core = fixture_core_with_minimal_hwpx();
    let fragment = r#"<hp:p paraPrIDRef="0" styleIDRef="0"><hp:run charPrIDRef="0"><hp:t>integration</hp:t></hp:run></hp:p>"#;
    let source = SourceDefinitions::default();

    let result = core
        .paste_hwpx_fragment_in_document_native(0, 0, fragment, &source)
        .expect("paste ok");

    assert_eq!(result.inserted_para_count, 1);
    let updated = core.get_source_section_xml(0).expect("section preserved");
    assert!(updated.contains("integration"));
    assert!(core.dirty_sections[0]);
    assert!(matches!(
        core.event_log.last(),
        Some(DocumentEvent::FragmentPasted {
            section: 0,
            para: 0
        })
    ));
}

#[test]
fn header_definition_reuse_across_two_pastes() {
    let mut core = fixture_core_with_minimal_hwpx();
    let fragment = r#"<hp:p paraPrIDRef="9" styleIDRef="0"><hp:run charPrIDRef="9"><hp:t>x</hp:t></hp:run></hp:p>"#;
    let source = SourceDefinitions {
        char_prs: "<hh:charPr id=\"9\" height=\"4242\"/>".into(),
        para_prs: "<hh:paraPr id=\"9\" alignTag=\"left\"/>".into(),
        ..Default::default()
    };

    let r1 = core
        .paste_hwpx_fragment_in_document_native(0, 0, fragment, &source)
        .expect("first paste");
    let header_after_first = core.get_source_header_xml().len();

    let r2 = core
        .paste_hwpx_fragment_in_document_native(0, 0, fragment, &source)
        .expect("second paste");
    let header_after_second = core.get_source_header_xml().len();

    assert_eq!(
        header_after_second, header_after_first,
        "header bloated on second paste — ID reuse failed"
    );
    assert_eq!(
        r1.id_remap.char_pr.get(&9),
        r2.id_remap.char_pr.get(&9),
        "ID remap diverged across calls"
    );
    let pasted_events: Vec<_> = core
        .event_log
        .iter()
        .filter(|e| matches!(e, DocumentEvent::FragmentPasted { .. }))
        .collect();
    assert_eq!(pasted_events.len(), 2);
}

#[test]
fn malformed_fragment_returns_paste_error() {
    let mut core = fixture_core_with_minimal_hwpx();
    let source = SourceDefinitions::default();
    let r = core.paste_hwpx_fragment_in_document_native(0, 0, "<hp:p>", &source);
    assert!(
        matches!(r, Err(PasteInDocumentError::Paste(_))),
        "expected Paste error, got {r:?}"
    );
}

#[test]
fn page_cache_invalidated_after_paste() {
    let mut core = fixture_core_with_minimal_hwpx();
    core.page_tree_cache.push(None);
    let fragment = r#"<hp:p paraPrIDRef="0" styleIDRef="0"><hp:run charPrIDRef="0"><hp:t>x</hp:t></hp:run></hp:p>"#;
    let source = SourceDefinitions::default();
    core.paste_hwpx_fragment_in_document_native(0, 0, fragment, &source)
        .expect("paste");
    for slot in core.page_tree_cache.iter() {
        assert!(slot.is_none(), "cache slot should be None after paste");
    }
}

#[test]
fn section_without_ir_is_a_reparse_error() {
    let mut core = fixture_core_with_minimal_hwpx();
    core.document.sections.clear();
    let source = SourceDefinitions::default();
    let r = core.paste_hwpx_fragment_in_document_native(0, 0, "<hp:p paraPrIDRef=\"0\"/>", &source);
    match r {
        Err(PasteInDocumentError::Reparse(m)) => {
            assert_eq!(m, "source XML section 0 has no matching IR section (have 0)")
        }
        other => panic!("expected Reparse, got {other:?}"),
    }
}

#[test]
fn error_messages() {
    assert_eq!(
        PasteInDocumentError::NoSourceXml.message(),
        "document was not loaded from HWPX (no source XML preserved)"
    );
    assert_eq!(
        PasteInDocumentError::SectionOutOfRange { idx: 3, count: 1 }.message(),
        "section_idx 3 out of range (have 1)"
    );
    assert_eq!(
        PasteInDocumentError::Paste(FragmentPasteError::MalformedFragment("x".to_string())).message(),
        "paste failed: malformed fragment: x"
    );
    assert_eq!(
        PasteInDocumentError::Reparse("header".to_string()).message(),
        "IR reparse failed: header"
    );
    assert_eq!(
        FragmentPasteError::HeaderInsertionPointMissing("</hh:styleList>").message(),
        "header insertion point missing for </hh:styleList>"
    );
    assert_eq!(
        FragmentPasteError::MalformedSourceDefinitions("id".to_string()).message(),
        "malformed source definitions: id"
    );
}

/// The IR of the pasted section as a reader gives it: one paragraph per
/// top-level `<hp:p>` of the new section XML.
fn reread_section(xml: &str) -> Section {
    let mut section = Section::default();
    for part in xml.split("<hp:p ").skip(1) {
        let text = part
            .split("<hp:t>")
            .nth(1)
            .and_then(|t| t.split("</hp:t>").next())
            .unwrap_or("");
        section.paragraphs.push(Paragraph {
            text: text.to_string(),
            char_count: text.chars().count() as u32,
            ..Default::default()
        });
    }
    section
}

#[test]
fn ir_section_actually_grows_after_paste() {
    let mut core = fixture_core_with_minimal_hwpx();
    let fragment = r#"<hp:p paraPrIDRef="0" styleIDRef="0"><hp:run charPrIDRef="0"><hp:t>integration</hp:t></hp:run></hp:p>"#;
    let source = SourceDefinitions::default();

    let para_before = core.document.sections[0].paragraphs.len();
    core.paste_hwpx_fragment_in_document_native(0, 0, fragment, &source)
        .expect("paste ok");
    let new_xml = core.get_source_section_xml(0).expect("section preserved").to_string();
    let section = reread_section(&new_xml);
    core.install_reparsed(0, DocInfo::default(), section);
    let para_after = core.document.sections[0].paragraphs.len();
    assert!(
        para_after > para_before,
        "IR section paragraph count did not grow ({} -> {})",
        para_before,
        para_after
    );
    assert_eq!(core.document.sections[0].paragraphs[1].text, "integration");
}

#[test]
fn install_reparsed_keeps_bin_data_when_reread_has_none() {
    let mut core = fixture_core_with_minimal_hwpx();
    core.document.doc_info.bin_data_list.push(BinData { storage_id: 1, extension: "png".to_string() });
    let mut reread = DocInfo::default();
    reread.styles.push(Default::default());
    core.install_reparsed(0, reread, Section::default());
    assert_eq!(core.document.doc_info.bin_data_list.len(), 1);
    assert_eq!(core.document.doc_info.bin_data_list[0].extension, "png");
    assert_eq!(core.document.doc_info.styles.len(), 1);

    let mut reread = DocInfo::default();
    reread.bin_data_list.push(BinData { storage_id: 7, extension: "bmp".to_string() });
    core.install_reparsed(0, reread, Section::default());
    assert_eq!(core.document.doc_info.bin_data_list.len(), 1);
    assert_eq!(core.document.doc_info.bin_data_list[0].storage_id, 7);
    assert!(core.document.doc_info.styles.is_empty());
}
