use rhwp::document_core::cross_document_migrate::{
    remap_definitions, walk_control, walk_paragraph, walk_table, IdRemap,
};
use rhwp::document_core::{DocumentCore, DocumentEvent};
use rhwp::error::HwpError;
use rhwp::model::{
    BorderFill, Cell, CharOverlap, CharShape, CharShapeRef, Control, DocInfo, Document, Header,
    ParaShape, Paragraph, Section, Style, Table, TableZone,
};

fn make_char_shape(font: u16) -> CharShape {
    let mut cs = CharShape::default();
    cs.font_ids = [font; 7];
    cs
}

fn make_para_shape(margin_left: i32) -> ParaShape {
    let mut ps = ParaShape::default();
    ps.margin_left = margin_left;
    ps
}

fn make_border_fill(attr: u16) -> BorderFill {
    let mut bf = BorderFill::default();
    bf.attr = attr;
    bf
}

#[test]
fn test_remap_reuse_existing_char_shape() {
    // dst에 동일한 charPr 존재 → remap 이 기존 idx 재사용, 길이 변화 없음
    let cs = make_char_shape(7);

    let mut src = DocInfo::default();
    src.char_shapes.push(cs.clone());

    let mut dst = DocInfo::default();
    dst.char_shapes.push(cs.clone());
    let initial_len = dst.char_shapes.len();

    let remap = remap_definitions(&src, &mut dst);

    assert_eq!(
        dst.char_shapes.len(),
        initial_len,
        "기존 charShape 재사용, dst 길이 변화 없음"
    );
    assert_eq!(
        remap.char_shape.get(&0),
        Some(&0),
        "src[0] → dst[0] remap (기존 idx)"
    );
}

#[test]
fn test_remap_append_new_border_fill() {
    // dst에 없는 borderFill → append, 새 idx 부여
    let mut src = DocInfo::default();
    src.border_fills.push(make_border_fill(42));

    let mut dst = DocInfo::default();
    let initial_len = dst.border_fills.len();

    let remap = remap_definitions(&src, &mut dst);

    assert_eq!(
        dst.border_fills.len(),
        initial_len + 1,
        "새 borderFill append (Stage 1: 항상 append)"
    );
    assert_eq!(
        remap.border_fill.get(&0),
        Some(&(initial_len as u16)),
        "src[0] → 새 idx"
    );
}

#[test]
fn test_remap_topological_order_borderfill_first() {
    // src.char_shape 가 src.border_fill_id=2 참조.
    // dst가 비어있을 때 → border_fill 들이 먼저 append되고
    // char_shape 의 border_fill_id 가 dst의 새 idx로 갱신되어야 함.
    let mut src = DocInfo::default();
    src.border_fills.push(make_border_fill(0));
    src.border_fills.push(make_border_fill(1));
    src.border_fills.push(make_border_fill(2));

    let mut cs = make_char_shape(1);
    cs.border_fill_id = 2; // src 기준 idx 2 (bf2) 참조
    src.char_shapes.push(cs);

    let mut dst = DocInfo::default();
    let remap = remap_definitions(&src, &mut dst);

    let new_bf2_idx = *remap.border_fill.get(&2).expect("bf2 remap 존재");
    let new_cs_idx = *remap.char_shape.get(&0).expect("cs0 remap 존재");

    assert_eq!(
        dst.char_shapes[new_cs_idx as usize].border_fill_id, new_bf2_idx,
        "char_shape의 border_fill_id 가 위상 정렬 결과에 따라 갱신됨"
    );
}

#[test]
fn test_remap_para_shape_dedup() {
    // 동일 ParaShape 가 dst에 있으면 재사용
    let ps = make_para_shape(1000);

    let mut src = DocInfo::default();
    src.para_shapes.push(ps.clone());

    let mut dst = DocInfo::default();
    dst.para_shapes.push(ps);
    let initial_len = dst.para_shapes.len();

    let remap = remap_definitions(&src, &mut dst);

    assert_eq!(dst.para_shapes.len(), initial_len, "동일 paraShape 재사용");
    assert_eq!(remap.para_shape.get(&0), Some(&0));
}

#[test]
fn test_remap_style_always_appends() {
    // Stage 1: Style 은 PartialEq 부재 → 항상 append.
    let mut st = Style::default();
    st.local_name = "바탕글".into();
    st.style_type = 0;

    let mut src = DocInfo::default();
    src.styles.push(st.clone());

    let mut dst = DocInfo::default();
    dst.styles.push(st);
    let initial_len = dst.styles.len();

    let remap = remap_definitions(&src, &mut dst);

    assert_eq!(
        dst.styles.len(),
        initial_len + 1,
        "Stage 1: style 은 항상 append (dedup 비활성)"
    );
    assert_eq!(
        remap.style.get(&0),
        Some(&(initial_len as u8)),
        "src[0] → 새 idx (initial_len)"
    );
}

#[test]
fn test_remap_style_id_refs_updated_after_topological_sort() {
    // src.style 이 src.para_shape_id=1 + src.char_shape_id=1 참조.
    // dst가 비어있으면 둘 다 append → style 의 ID ref 들이 새 idx 로 갱신
    let mut src = DocInfo::default();
    src.para_shapes.push(make_para_shape(0));
    src.para_shapes.push(make_para_shape(1000));
    src.char_shapes.push(make_char_shape(0));
    src.char_shapes.push(make_char_shape(1));

    let mut st = Style::default();
    st.para_shape_id = 1;
    st.char_shape_id = 1;
    src.styles.push(st);

    let mut dst = DocInfo::default();
    let remap = remap_definitions(&src, &mut dst);

    let new_ps1 = *remap.para_shape.get(&1).expect("ps1 remap 존재");
    let new_cs1 = *remap.char_shape.get(&1).expect("cs1 remap 존재");
    let new_st_idx = *remap.style.get(&0).expect("style remap 존재");

    let new_st = &dst.styles[new_st_idx as usize];
    assert_eq!(new_st.para_shape_id, new_ps1, "style.para_shape_id 갱신됨");
    assert_eq!(
        new_st.char_shape_id as u32, new_cs1,
        "style.char_shape_id 갱신됨 (u16↔u32 cast)"
    );
}

#[test]
fn test_remap_empty_source_no_changes() {
    let src = DocInfo::default();
    let mut dst = DocInfo::default();
    dst.border_fills.push(make_border_fill(99));
    let initial = dst.border_fills.len();

    let remap = remap_definitions(&src, &mut dst);

    assert!(remap.border_fill.is_empty());
    assert!(remap.char_shape.is_empty());
    assert!(remap.para_shape.is_empty());
    assert!(remap.style.is_empty());
    assert_eq!(
        dst.border_fills.len(),
        initial,
        "빈 src 는 dst 를 변경하지 않음"
    );
}

// ─── Stage 2: Walker tests ─────────────────────────────────────────────


fn remap_with_char_shape(src_id: u32, dst_id: u32) -> IdRemap {
    let mut r = IdRemap::default();
    r.char_shape.insert(src_id, dst_id);
    r
}

fn remap_with_border_fill(src_id: u16, dst_id: u16) -> IdRemap {
    let mut r = IdRemap::default();
    r.border_fill.insert(src_id, dst_id);
    r
}

fn remap_with_para_shape(src_id: u16, dst_id: u16) -> IdRemap {
    let mut r = IdRemap::default();
    r.para_shape.insert(src_id, dst_id);
    r
}

#[test]
fn test_walk_paragraph_text_only() {
    // Para with single CharShapeRef(char_shape_id=0); remap 0→5
    let mut p = Paragraph::default();
    p.para_shape_id = 0;
    p.style_id = 0;
    p.char_shapes.push(CharShapeRef {
        start_pos: 0,
        char_shape_id: 0,
    });

    let mut remap = remap_with_char_shape(0, 5);
    remap.para_shape.insert(0, 9);
    remap.style.insert(0, 7);

    walk_paragraph(&mut p, &remap);

    assert_eq!(p.para_shape_id, 9, "para_shape_id remap");
    assert_eq!(p.style_id, 7, "style_id remap");
    assert_eq!(
        p.char_shapes[0].char_shape_id, 5,
        "char_shape_id (CharShapeRef) remap"
    );
}

#[test]
fn test_walk_paragraph_no_remap_keeps_id() {
    // remap 에 없는 ID 는 그대로 유지
    let mut p = Paragraph::default();
    p.para_shape_id = 42;
    p.style_id = 3;

    let remap = IdRemap::default(); // 빈 remap
    walk_paragraph(&mut p, &remap);

    assert_eq!(p.para_shape_id, 42);
    assert_eq!(p.style_id, 3);
}

fn make_table_2x2_with_bf(table_bf: u16, cell_bf: u16) -> Table {
    let mut t = Table::default();
    t.row_count = 2;
    t.col_count = 2;
    t.border_fill_id = table_bf;
    for r in 0..2_u16 {
        for c in 0..2_u16 {
            let mut cell = Cell::default();
            cell.col = c;
            cell.row = r;
            cell.col_span = 1;
            cell.row_span = 1;
            cell.border_fill_id = cell_bf;
            t.cells.push(cell);
        }
    }
    t
}

#[test]
fn test_walk_table_2x2() {
    let mut t = make_table_2x2_with_bf(2, 3);

    let mut remap = remap_with_border_fill(2, 12);
    remap.border_fill.insert(3, 13);

    walk_table(&mut t, &remap);

    assert_eq!(t.border_fill_id, 12, "table border_fill_id remap");
    for cell in &t.cells {
        assert_eq!(cell.border_fill_id, 13, "cell border_fill_id remap");
    }
    assert_eq!(t.cells.len(), 4);
}

#[test]
fn test_walk_nested_table() {
    // outer.cells[0].paragraphs[0].controls[0] = Inner Table
    // Inner table.border_fill_id 도 remap 적용되어야 함
    let mut inner = make_table_2x2_with_bf(5, 6);
    let mut inner_para = Paragraph::default();
    inner_para.controls.push(Control::Table(Box::new(inner)));

    let mut outer = make_table_2x2_with_bf(2, 3);
    outer.cells[0].paragraphs.push(inner_para);

    let mut remap = IdRemap::default();
    remap.border_fill.insert(2, 12);
    remap.border_fill.insert(3, 13);
    remap.border_fill.insert(5, 15);
    remap.border_fill.insert(6, 16);

    walk_table(&mut outer, &remap);

    assert_eq!(outer.border_fill_id, 12, "outer table remap");
    let extracted_inner = match &outer.cells[0].paragraphs[0].controls[0] {
        Control::Table(t) => t,
        _ => panic!("expected inner Table"),
    };
    assert_eq!(
        extracted_inner.border_fill_id, 15,
        "inner table remap (재귀)"
    );
    for cell in &extracted_inner.cells {
        assert_eq!(cell.border_fill_id, 16, "inner cell remap");
    }
}

#[test]
fn test_walk_char_overlap() {
    // CharOverlap.char_shape_ids 의 각 element 가 remap 적용
    let mut co = CharOverlap::default();
    co.char_shape_ids = vec![1, 2, 3];

    let mut remap = IdRemap::default();
    remap.char_shape.insert(1, 10);
    remap.char_shape.insert(2, 20);
    remap.char_shape.insert(3, 30);

    let mut ctrl = Control::CharOverlap(co);
    walk_control(&mut ctrl, &remap);

    if let Control::CharOverlap(co_out) = ctrl {
        assert_eq!(co_out.char_shape_ids, vec![10, 20, 30]);
    } else {
        panic!("expected CharOverlap");
    }
}

#[test]
fn test_walk_table_zones() {
    let mut t = make_table_2x2_with_bf(0, 0);
    t.zones.push(TableZone {
        start_col: 0,
        start_row: 0,
        end_col: 1,
        end_row: 1,
        border_fill_id: 7,
    });

    let mut remap = IdRemap::default();
    remap.border_fill.insert(0, 100);
    remap.border_fill.insert(7, 17);

    walk_table(&mut t, &remap);

    assert_eq!(
        t.zones[0].border_fill_id, 17,
        "TableZone border_fill_id remap"
    );
}

#[test]
fn test_walk_header_paragraphs() {
    // Header.paragraphs 재귀: header 안 paragraph 의 para_shape_id remap
    let mut header = Header::default();
    let mut p = Paragraph::default();
    p.para_shape_id = 1;
    header.paragraphs.push(p);

    let mut ctrl = Control::Header(Box::new(header));
    let remap = remap_with_para_shape(1, 5);
    walk_control(&mut ctrl, &remap);

    if let Control::Header(h_out) = ctrl {
        assert_eq!(
            h_out.paragraphs[0].para_shape_id, 5,
            "Header.paragraphs[0].para_shape_id remap (재귀)"
        );
    } else {
        panic!("expected Header");
    }
}

// ─── cross_document_migrate ───

/// A blank document: one section with one empty paragraph.
fn make_blank_doc() -> DocumentCore {
    let mut doc = DocumentCore::new_empty();
    let mut section = Section::default();
    section.paragraphs.push(Paragraph::default());
    doc.document.sections.push(section);
    doc.dirty_sections.push(false);
    doc
}

fn make_src_doc_with_paragraphs(paragraphs: Vec<Paragraph>) -> Document {
    let mut doc = Document::default();
    let mut section = Section::default();
    section.paragraphs = paragraphs;
    doc.sections.push(section);
    doc
}

fn make_text_paragraph(text: &str, char_shape_id: u32, para_shape_id: u16) -> Paragraph {
    let mut p = Paragraph::default();
    p.text = text.to_string();
    p.char_count = text.chars().count() as u32;
    p.para_shape_id = para_shape_id;
    p.style_id = 0;
    p.char_shapes.push(CharShapeRef {
        start_pos: 0,
        char_shape_id,
    });
    p
}

fn error_message(r: Result<rhwp::document_core::cross_document_migrate::MigrateReport, HwpError>) -> String {
    match r {
        Err(HwpError::RenderError(m)) => m,
        Ok(_) => panic!("expected an error"),
    }
}

#[test]
fn test_cross_document_migrate_text_only() {
    let mut src = make_src_doc_with_paragraphs(vec![make_text_paragraph("안녕", 0, 0)]);
    src.doc_info.char_shapes.push(make_char_shape(1));
    src.doc_info.para_shapes.push(make_para_shape(0));

    let mut doc = make_blank_doc();
    let initial_para_count = doc.document.sections[0].paragraphs.len();

    let report = doc
        .cross_document_migrate(&src, 0, 0..1, 0, 0, 0)
        .expect("migrate ok");

    assert_eq!(report.inserted_para_count, 1, "1 paragraph inserted");
    assert!(
        doc.document.sections[0].paragraphs.len() >= initial_para_count,
        "dst.paragraphs 길이 증가 또는 유지 (좌반 빈 → 대체 가능)"
    );
    let last_event = doc.event_log.last().expect("event_log non-empty");
    assert!(
        matches!(last_event, DocumentEvent::FragmentPasted { .. }),
        "FragmentPasted event 발행"
    );
}

#[test]
fn test_cross_document_migrate_table_fragment() {
    let table = make_table_2x2_with_bf(2, 3);
    let mut src_para = Paragraph::default();
    src_para.text = "\u{0002}".into();
    src_para.char_count = 1;
    src_para.controls.push(Control::Table(Box::new(table)));

    let mut src = make_src_doc_with_paragraphs(vec![src_para]);
    src.doc_info.border_fills.push(make_border_fill(2));
    src.doc_info.border_fills.push(make_border_fill(3));

    let mut doc = make_blank_doc();
    let report = doc
        .cross_document_migrate(&src, 0, 0..1, 0, 0, 0)
        .expect("migrate ok");

    assert_eq!(report.inserted_para_count, 1);
    assert!(report.id_remap.border_fill.contains_key(&0));
    assert!(report.id_remap.border_fill.contains_key(&1));
}

#[test]
fn test_cross_document_migrate_caret_position() {
    let mut doc = make_blank_doc();
    doc.document.sections[0].paragraphs[0].text = "abcde".to_string();
    doc.document.sections[0].paragraphs[0].char_count = 5;

    let src = make_src_doc_with_paragraphs(vec![make_text_paragraph("XYZ", 0, 0)]);

    let report = doc
        .cross_document_migrate(&src, 0, 0..1, 0, 0, 2)
        .expect("migrate ok");

    assert_eq!(report.inserted_para_count, 1);
    let final_paras = doc.document.sections[0].paragraphs.len();
    assert!(final_paras >= 2, "최소 2 paragraph (split 결과)");
}

#[test]
fn test_cross_document_migrate_out_of_range() {
    let src = make_src_doc_with_paragraphs(vec![make_text_paragraph("x", 0, 0)]);
    let mut doc = make_blank_doc();

    assert!(doc.cross_document_migrate(&src, 0, 0..1, 99, 0, 0).is_err());
    assert!(doc.cross_document_migrate(&src, 99, 0..1, 0, 0, 0).is_err());
    assert!(doc.cross_document_migrate(&src, 0, 0..99, 0, 0, 0).is_err());
}

#[test]
fn migrate_caret_in_middle_splits_around_copies() {
    let mut doc = make_blank_doc();
    doc.document.sections[0].paragraphs[0].text = "abcde".to_string();
    doc.document.sections[0].paragraphs[0].char_count = 5;
    let src = make_src_doc_with_paragraphs(vec![make_text_paragraph("XYZ", 0, 0)]);

    let report = doc.cross_document_migrate(&src, 0, 0..1, 0, 0, 2).unwrap();
    let texts: Vec<&str> = doc.document.sections[0]
        .paragraphs
        .iter()
        .map(|p| p.text.as_str())
        .collect();
    assert_eq!(texts, vec!["ab", "XYZ", "cde"]);
    assert_eq!(doc.document.sections[0].paragraphs[0].char_count, 2);
    assert_eq!(doc.document.sections[0].paragraphs[2].char_count, 3);
    assert_eq!(report.last_para_idx, 2);
    assert_eq!(report.last_char_offset, 0);
    assert!(doc.document.sections[0].raw_stream.is_none());
    assert_eq!(doc.dirty_sections, vec![true]);
    assert_eq!(
        doc.event_log,
        vec![DocumentEvent::FragmentPasted { section: 0, para: 0 }]
    );
}

#[test]
fn migrate_into_empty_paragraph_replaces_it() {
    let mut doc = make_blank_doc();
    let src = make_src_doc_with_paragraphs(vec![
        make_text_paragraph("하나", 0, 0),
        make_text_paragraph("둘셋", 0, 0),
    ]);
    let report = doc.cross_document_migrate(&src, 0, 0..2, 0, 0, 0).unwrap();
    let texts: Vec<&str> = doc.document.sections[0]
        .paragraphs
        .iter()
        .map(|p| p.text.as_str())
        .collect();
    assert_eq!(texts, vec!["하나", "둘셋"]);
    assert_eq!(report.inserted_para_count, 2);
    assert_eq!(report.last_para_idx, 1);
    assert_eq!(report.last_char_offset, 2);
}

#[test]
fn migrate_caret_at_end_keeps_paragraph_and_appends() {
    let mut doc = make_blank_doc();
    doc.document.sections[0].paragraphs[0].text = "abc".to_string();
    doc.document.sections[0].paragraphs.push(make_text_paragraph("next", 0, 0));
    let src = make_src_doc_with_paragraphs(vec![make_text_paragraph("XY", 0, 0)]);
    // a caret beyond the end of the text cuts at the end
    let report = doc.cross_document_migrate(&src, 0, 0..1, 0, 0, 99).unwrap();
    let texts: Vec<&str> = doc.document.sections[0]
        .paragraphs
        .iter()
        .map(|p| p.text.as_str())
        .collect();
    assert_eq!(texts, vec!["abc", "XY", "next"]);
    assert_eq!(report.last_para_idx, 1);
    assert_eq!(report.last_char_offset, 2);
}

#[test]
fn migrate_empty_range_merges_definitions_only() {
    let mut doc = make_blank_doc();
    let mut src = make_src_doc_with_paragraphs(vec![make_text_paragraph("x", 0, 0)]);
    src.doc_info.border_fills.push(make_border_fill(5));
    let report = doc.cross_document_migrate(&src, 0, 1..1, 0, 0, 7).unwrap();
    assert_eq!(report.inserted_para_count, 0);
    assert_eq!(report.last_para_idx, 0);
    assert_eq!(report.last_char_offset, 7);
    assert_eq!(doc.document.doc_info.border_fills.len(), 1);
    assert!(doc.document.doc_info.raw_stream_dirty);
    assert_eq!(doc.document.sections[0].paragraphs.len(), 1);
    assert!(doc.event_log.is_empty());
}

#[test]
fn migrate_maps_references_of_copies() {
    let mut doc = make_blank_doc();
    doc.document.doc_info.char_shapes.push(make_char_shape(9));
    let mut src = make_src_doc_with_paragraphs(vec![make_text_paragraph("x", 0, 0)]);
    src.doc_info.char_shapes.push(make_char_shape(1));
    doc.cross_document_migrate(&src, 0, 0..1, 0, 0, 0).unwrap();
    // the source char shape is new to the destination: appended as its second
    let p = &doc.document.sections[0].paragraphs[0];
    assert_eq!(p.char_shapes[0].char_shape_id, 1);
    assert_eq!(doc.document.doc_info.char_shapes.len(), 2);
}

#[test]
fn migrate_error_messages() {
    let src = make_src_doc_with_paragraphs(vec![make_text_paragraph("x", 0, 0)]);
    let mut doc = make_blank_doc();
    assert_eq!(
        error_message(doc.cross_document_migrate(&src, 0, 0..1, 99, 0, 0)),
        "구역 99 범위 초과"
    );
    assert_eq!(
        error_message(doc.cross_document_migrate(&src, 0, 0..1, 0, 5, 0)),
        "문단 5 범위 초과"
    );
    assert_eq!(
        error_message(doc.cross_document_migrate(&src, 99, 0..1, 0, 0, 0)),
        "src 구역 99 범위 초과"
    );
    assert_eq!(
        error_message(doc.cross_document_migrate(&src, 0, 0..99, 0, 0, 0)),
        "src paragraph 범위 0..99 가 총 1 초과"
    );
    assert!(doc.event_log.is_empty());
}

#[test]
fn split_at_cuts_text_and_runs() {
    let mut p = make_text_paragraph("가나다라", 4, 1);
    p.char_shapes.push(CharShapeRef { start_pos: 3, char_shape_id: 6 });
    let right = p.split_at(2);
    assert_eq!(p.text, "가나");
    assert_eq!(right.text, "다라");
    assert_eq!(p.char_shapes, vec![CharShapeRef { start_pos: 0, char_shape_id: 4 }]);
    assert_eq!(
        right.char_shapes,
        vec![
            CharShapeRef { start_pos: 0, char_shape_id: 4 },
            CharShapeRef { start_pos: 1, char_shape_id: 6 }
        ]
    );
    assert_eq!(right.para_shape_id, 1);
}

#[test]
fn split_parts_rejoin_to_the_text() {
    let mut p = make_text_paragraph("안녕하세요", 0, 0);
    let right = p.split_at(9);
    assert_eq!(format!("{}{}", p.text, right.text), "안녕하세요");
    assert_eq!(right.text, "");
    assert_eq!(p.char_count, 5);
    assert_eq!(right.char_count, 0);
}
