use rhwp::fragment_paste::{
    build_id_remap, find_top_level_p_spans, paste_fragment_into_section,
    paste_paragraphs_into_section, recompute_table_addrs, rewrite_id_refs, FragmentPasteError,
    IdRemap, SourceDefinitions,
};

fn header_with(char_prs: &str, para_prs: &str, styles: &str, border_fills: &str) -> String {
    format!(
        "<hh:head>\
<hh:charPropertyList>{char_prs}</hh:charPropertyList>\
<hh:paraPropertyList>{para_prs}</hh:paraPropertyList>\
<hh:styleList>{styles}</hh:styleList>\
<hh:borderFillList>{border_fills}</hh:borderFillList>\
</hh:head>"
    )
}

#[test]
fn id_remap_existing_definition_reuses_id() {
    let mut header = header_with(
        "<hh:charPr id=\"5\" height=\"1000\"><hh:fontRef hangul=\"0\"/></hh:charPr>",
        "",
        "",
        "",
    );
    let source = SourceDefinitions {
        char_prs: "<hh:charPr id=\"9\" height=\"1000\"><hh:fontRef hangul=\"0\"/></hh:charPr>"
            .into(),
        ..Default::default()
    };
    let remap = build_id_remap(&mut header, &source).unwrap();
    // source id=9 가 기존 동일 정의(id=5)를 재사용해야 함
    assert_eq!(remap.char_pr.get(&9), Some(&5));
    // header에 새 정의 append되지 않았어야 함 (기존 1건만)
    assert_eq!(header.matches("<hh:charPr id=").count(), 1);
}

#[test]
fn id_remap_new_definition_appends() {
    let mut header = header_with("<hh:charPr id=\"5\" height=\"1000\"/>", "", "", "");
    let source = SourceDefinitions {
        char_prs: "<hh:charPr id=\"9\" height=\"2000\"/>".into(),
        ..Default::default()
    };
    let original_len = header.len();
    let remap = build_id_remap(&mut header, &source).unwrap();
    // 다른 정의이므로 새 ID = max(5)+1 = 6
    assert_eq!(remap.char_pr.get(&9), Some(&6));
    // header에 새 정의가 추가됐고, 닫는 태그 위치가 보존됨
    assert!(header.len() > original_len);
    assert!(header.contains("<hh:charPr id=\"6\" height=\"2000\"/>"));
    assert!(header.ends_with("</hh:head>"));
    assert_eq!(header.matches("<hh:charPr id=").count(), 2);
}

#[test]
fn id_remap_byte_exact_insertion() {
    let mut header = header_with("<hh:charPr id=\"5\" height=\"1000\"/>", "", "", "");
    let baseline = header.clone();
    let source = SourceDefinitions {
        char_prs: "<hh:charPr id=\"9\" height=\"2000\"/>".into(),
        ..Default::default()
    };
    build_id_remap(&mut header, &source).unwrap();
    // 기존 정의는 그대로 byte-exact 유지되어야 함
    assert!(header.contains("<hh:charPr id=\"5\" height=\"1000\"/>"));
    // baseline의 charPropertyList 닫는 태그 직전까지가 byte-exact 보존
    let baseline_close_pos = baseline.find("</hh:charPropertyList>").unwrap();
    assert_eq!(
        &header[..baseline_close_pos],
        &baseline[..baseline_close_pos]
    );
}

#[test]
fn rewrite_id_refs_preserves_unrelated_attrs() {
    let mut remap = IdRemap::default();
    remap.char_pr.insert(9, 27);
    let frag = r#"<hp:run charPrIDRef="9" otherAttr="keep"><hp:t>x</hp:t></hp:run>"#;
    let out = rewrite_id_refs(frag, &remap);
    assert_eq!(
        out,
        r#"<hp:run charPrIDRef="27" otherAttr="keep"><hp:t>x</hp:t></hp:run>"#
    );
}

#[test]
fn rewrite_id_refs_handles_quote_styles() {
    let mut remap = IdRemap::default();
    remap.char_pr.insert(9, 27);
    remap.para_pr.insert(3, 11);
    let frag = r#"<hp:p paraPrIDRef='3'><hp:run charPrIDRef="9"/></hp:p>"#;
    let out = rewrite_id_refs(frag, &remap);
    assert!(out.contains("paraPrIDRef='11'"));
    assert!(out.contains("charPrIDRef=\"27\""));
}

#[test]
fn rewrite_id_refs_unknown_ids_left_intact() {
    let mut remap = IdRemap::default();
    remap.char_pr.insert(9, 27);
    // remap에 없는 12는 그대로 유지
    let frag = r#"<hp:run charPrIDRef="12"/>"#;
    let out = rewrite_id_refs(frag, &remap);
    assert_eq!(out, r#"<hp:run charPrIDRef="12"/>"#);
}

#[test]
fn rewrite_id_refs_no_match_for_attr_prefix_collision() {
    // "extraCharPrIDRef"는 본 attr가 아니므로 변경되면 안 됨
    let mut remap = IdRemap::default();
    remap.char_pr.insert(9, 27);
    let frag = r#"<hp:run extraCharPrIDRef="9"/>"#;
    let out = rewrite_id_refs(frag, &remap);
    assert_eq!(out, frag);
}

// ─── Stage 2: paragraphs paste ───

fn empty_section() -> String {
    // top-level <hp:p> 1개 (anchor용). secPr 같은 부수 요소는 단순화.
    "<hs:sec><hp:p paraPrIDRef=\"0\" styleIDRef=\"0\"><hp:run charPrIDRef=\"0\"><hp:t>x</hp:t></hp:run></hp:p></hs:sec>".to_string()
}

fn empty_header() -> String {
    header_with(
        "<hh:charPr id=\"0\" height=\"1000\"/>",
        "<hh:paraPr id=\"0\"/>",
        "<hh:style id=\"0\" name=\"def\"/>",
        "",
    )
}

#[test]
fn paste_paragraphs_simple() {
    let section = empty_section();
    let mut header = empty_header();
    let fragment = r#"<hp:p paraPrIDRef="9" styleIDRef="0"><hp:run charPrIDRef="9"><hp:t>hello</hp:t></hp:run></hp:p>"#;
    let source = SourceDefinitions {
        char_prs: "<hh:charPr id=\"9\" height=\"2000\"/>".into(),
        para_prs: "<hh:paraPr id=\"9\" alignTag=\"new\"/>".into(),
        ..Default::default()
    };
    let result =
        paste_paragraphs_into_section(&section, &mut header, 0, fragment, &source).unwrap();
    assert_eq!(result.inserted_para_count, 1);
    // 결과 section의 top-level <hp:p>가 paste 전(1)에서 +1 = 2
    let final_p_count = find_top_level_p_spans(&result.new_section_xml).len();
    assert_eq!(final_p_count, 2);
    // remap이 적용되어 fragment의 charPrIDRef="9"가 새 ID로 갈아끼워짐
    assert!(!result.new_section_xml.contains("charPrIDRef=\"9\""));
    assert!(result.new_section_xml.contains("hello"));
}

#[test]
fn paste_paragraphs_multi() {
    let section = empty_section();
    let mut header = empty_header();
    let fragment = r#"<hp:p paraPrIDRef="0"><hp:run charPrIDRef="0"><hp:t>1</hp:t></hp:run></hp:p><hp:p paraPrIDRef="0"><hp:run charPrIDRef="0"><hp:t>2</hp:t></hp:run></hp:p><hp:p paraPrIDRef="0"><hp:run charPrIDRef="0"><hp:t>3</hp:t></hp:run></hp:p>"#;
    let source = SourceDefinitions::default();
    let result =
        paste_paragraphs_into_section(&section, &mut header, 0, fragment, &source).unwrap();
    assert_eq!(result.inserted_para_count, 3);
    let final_p_count = find_top_level_p_spans(&result.new_section_xml).len();
    assert_eq!(final_p_count, 4);
}

#[test]
fn paste_paragraphs_byte_preserving() {
    let section = empty_section();
    let baseline = section.clone();
    let mut header = empty_header();
    let fragment =
        r#"<hp:p paraPrIDRef="0"><hp:run charPrIDRef="0"><hp:t>x</hp:t></hp:run></hp:p>"#;
    let source = SourceDefinitions::default();
    let result =
        paste_paragraphs_into_section(&section, &mut header, 0, fragment, &source).unwrap();
    // 기존 section의 첫 paragraph가 byte-exact 보존: anchor end까지가 baseline의 anchor end까지와 동일
    let baseline_first_p_end = find_top_level_p_spans(&baseline)[0].1;
    assert_eq!(
        &result.new_section_xml[..baseline_first_p_end],
        &baseline[..baseline_first_p_end]
    );
    // 닫는 </hs:sec>도 보존
    assert!(result.new_section_xml.ends_with("</hs:sec>"));
}

#[test]
fn paste_paragraphs_id_remapped_into_header() {
    let section = empty_section();
    let mut header = empty_header();
    // source의 charPr id=99는 본문이 다른 신규 정의 → 새 ID 부여 + header에 추가됨
    let fragment =
        r#"<hp:p paraPrIDRef="0"><hp:run charPrIDRef="99"><hp:t>x</hp:t></hp:run></hp:p>"#;
    let source = SourceDefinitions {
        char_prs: "<hh:charPr id=\"99\" height=\"5555\"/>".into(),
        ..Default::default()
    };
    let result =
        paste_paragraphs_into_section(&section, &mut header, 0, fragment, &source).unwrap();
    // header에 height=5555 새 정의가 추가됨
    assert!(header.contains("height=\"5555\""));
    // remap은 99 → 1 (max 0 + 1) 또는 그 이상의 새 ID
    let new_id = result.id_remap.char_pr.get(&99).copied().unwrap();
    assert!(new_id > 0);
    // fragment 안 charPrIDRef="99"가 새 ID로 갈아끼워졌어야 함
    assert!(!result.new_section_xml.contains("charPrIDRef=\"99\""));
    assert!(result
        .new_section_xml
        .contains(&format!("charPrIDRef=\"{new_id}\"")));
}

#[test]
fn paste_paragraphs_validates_input_unclosed_p() {
    let section = empty_section();
    let mut header = empty_header();
    // 닫히지 않은 <hp:p>
    let fragment = r#"<hp:p paraPrIDRef="0"><hp:run charPrIDRef="0"><hp:t>x</hp:t></hp:run>"#;
    let source = SourceDefinitions::default();
    let err =
        paste_paragraphs_into_section(&section, &mut header, 0, fragment, &source).unwrap_err();
    assert!(matches!(err, FragmentPasteError::MalformedFragment(_)));
}

#[test]
fn paste_paragraphs_validates_input_no_p() {
    let section = empty_section();
    let mut header = empty_header();
    // top-level <hp:p>가 전혀 없는 fragment
    let fragment = r#"<hp:run charPrIDRef="0"><hp:t>x</hp:t></hp:run>"#;
    let source = SourceDefinitions::default();
    let err =
        paste_paragraphs_into_section(&section, &mut header, 0, fragment, &source).unwrap_err();
    assert!(matches!(err, FragmentPasteError::MalformedFragment(_)));
}

#[test]
fn paste_paragraphs_after_para_idx_out_of_range() {
    let section = empty_section();
    let mut header = empty_header();
    let fragment =
        r#"<hp:p paraPrIDRef="0"><hp:run charPrIDRef="0"><hp:t>x</hp:t></hp:run></hp:p>"#;
    let source = SourceDefinitions::default();
    let err =
        paste_paragraphs_into_section(&section, &mut header, 5, fragment, &source).unwrap_err();
    assert!(matches!(err, FragmentPasteError::MalformedFragment(_)));
}

// ─── Stage 3: table addrs ───

fn make_simple_table(rows: u32, cols: u32) -> String {
    let mut out = format!("<hp:tbl rowCnt=\"0\" colCnt=\"{cols}\"><hp:cellzoneList/>");
    for r in 0..rows {
        out.push_str("<hp:tr>");
        for c in 0..cols {
            let _ = c; // placeholder
            out.push_str(&format!(
                "<hp:tc rowAddr=\"99\" colAddr=\"99\" rowSpan=\"1\" colSpan=\"1\"><hp:subList><hp:p><hp:run charPrIDRef=\"0\"><hp:t>x</hp:t></hp:run></hp:p></hp:subList></hp:tc>"
            ));
            let _ = r;
        }
        out.push_str("</hp:tr>");
    }
    out.push_str("</hp:tbl>");
    out
}

#[test]
fn recompute_simple_2x2() {
    let tbl = make_simple_table(2, 2);
    let out = recompute_table_addrs(&tbl).unwrap();
    // rowCnt=2 (opening tag)
    assert!(out.contains("rowCnt=\"2\""));
    // 4개 셀 모두 99 -> 정확한 값으로
    assert!(!out.contains("colAddr=\"99\""));
    assert!(!out.contains("rowAddr=\"99\""));
    // 첫 행: rowAddr=0, colAddr=[0, 1]
    assert!(out.contains("rowAddr=\"0\" colAddr=\"0\""));
    assert!(out.contains("rowAddr=\"0\" colAddr=\"1\""));
    // 둘째 행: rowAddr=1, colAddr=[0, 1]
    assert!(out.contains("rowAddr=\"1\" colAddr=\"0\""));
    assert!(out.contains("rowAddr=\"1\" colAddr=\"1\""));
}

#[test]
fn recompute_with_colspan() {
    // colCnt=3, Row0 [colSpan=2, colSpan=1] → colAddr=[0, 2]
    let tbl = "<hp:tbl rowCnt=\"0\" colCnt=\"3\">\
<hp:tr>\
<hp:tc rowAddr=\"99\" colAddr=\"99\" rowSpan=\"1\" colSpan=\"2\"><hp:subList><hp:p/></hp:subList></hp:tc>\
<hp:tc rowAddr=\"99\" colAddr=\"99\" rowSpan=\"1\" colSpan=\"1\"><hp:subList><hp:p/></hp:subList></hp:tc>\
</hp:tr></hp:tbl>";
    let out = recompute_table_addrs(tbl).unwrap();
    // 첫 셀 colAddr=0, 둘째 셀 colAddr=2
    assert!(out.contains("rowAddr=\"0\" colAddr=\"0\" rowSpan=\"1\" colSpan=\"2\""));
    assert!(out.contains("rowAddr=\"0\" colAddr=\"2\" rowSpan=\"1\" colSpan=\"1\""));
    assert!(out.contains("rowCnt=\"1\""));
}

#[test]
fn recompute_with_rowspan() {
    // colCnt=3, Row0 [rowSpan=2 colSpan=1, _, _] → Row1 cells start from col=1
    let tbl = "<hp:tbl rowCnt=\"0\" colCnt=\"3\">\
<hp:tr>\
<hp:tc rowAddr=\"99\" colAddr=\"99\" rowSpan=\"2\" colSpan=\"1\"><hp:subList><hp:p/></hp:subList></hp:tc>\
<hp:tc rowAddr=\"99\" colAddr=\"99\" rowSpan=\"1\" colSpan=\"1\"><hp:subList><hp:p/></hp:subList></hp:tc>\
<hp:tc rowAddr=\"99\" colAddr=\"99\" rowSpan=\"1\" colSpan=\"1\"><hp:subList><hp:p/></hp:subList></hp:tc>\
</hp:tr>\
<hp:tr>\
<hp:tc rowAddr=\"99\" colAddr=\"99\" rowSpan=\"1\" colSpan=\"1\"><hp:subList><hp:p/></hp:subList></hp:tc>\
<hp:tc rowAddr=\"99\" colAddr=\"99\" rowSpan=\"1\" colSpan=\"1\"><hp:subList><hp:p/></hp:subList></hp:tc>\
</hp:tr>\
</hp:tbl>";
    let out = recompute_table_addrs(tbl).unwrap();
    // Row0: cells at colAddr 0, 1, 2
    assert!(out.contains("rowAddr=\"0\" colAddr=\"0\" rowSpan=\"2\""));
    assert!(out.contains("rowAddr=\"0\" colAddr=\"1\""));
    assert!(out.contains("rowAddr=\"0\" colAddr=\"2\""));
    // Row1: col=0 점유 → cells at colAddr 1, 2
    assert!(out.contains("rowAddr=\"1\" colAddr=\"1\""));
    assert!(out.contains("rowAddr=\"1\" colAddr=\"2\""));
    assert!(out.contains("rowCnt=\"2\""));
}

#[test]
fn recompute_with_both_spans() {
    // colCnt=3, Row0 [colSpan=1 rowSpan=2, colSpan=2] → Row1은 col=0 점유 + col=1,2도 colspan으로 점유 안 됨
    // Row0 cells: c0(rs=2,cs=1), c1(rs=1,cs=2)  → colAddr [0, 1]
    // Row1 cells: 1개만, col=0 점유 → colAddr=1 (cs=1) but col 1과 2는 점유 안 됨, c1만 들어감 colAddr=1, 다음 c2 colAddr=2
    let tbl = "<hp:tbl rowCnt=\"0\" colCnt=\"3\">\
<hp:tr>\
<hp:tc rowAddr=\"99\" colAddr=\"99\" rowSpan=\"2\" colSpan=\"1\"><hp:subList><hp:p/></hp:subList></hp:tc>\
<hp:tc rowAddr=\"99\" colAddr=\"99\" rowSpan=\"1\" colSpan=\"2\"><hp:subList><hp:p/></hp:subList></hp:tc>\
</hp:tr>\
<hp:tr>\
<hp:tc rowAddr=\"99\" colAddr=\"99\" rowSpan=\"1\" colSpan=\"1\"><hp:subList><hp:p/></hp:subList></hp:tc>\
<hp:tc rowAddr=\"99\" colAddr=\"99\" rowSpan=\"1\" colSpan=\"1\"><hp:subList><hp:p/></hp:subList></hp:tc>\
</hp:tr>\
</hp:tbl>";
    let out = recompute_table_addrs(tbl).unwrap();
    // Row0: colAddr [0, 1]
    assert!(out.contains("rowAddr=\"0\" colAddr=\"0\" rowSpan=\"2\" colSpan=\"1\""));
    assert!(out.contains("rowAddr=\"0\" colAddr=\"1\" rowSpan=\"1\" colSpan=\"2\""));
    // Row1: col=0 점유, 다음 cells at colAddr [1, 2]
    assert!(out.contains("rowAddr=\"1\" colAddr=\"1\""));
    assert!(out.contains("rowAddr=\"1\" colAddr=\"2\""));
}

#[test]
fn recompute_byte_exact_outside_attrs() {
    // baseline의 셀 안 본문 텍스트 / 다른 속성 / 공백이 보존되는지 검증
    let tbl = "<hp:tbl rowCnt=\"0\" colCnt=\"2\" hint=\"keep\">\
<hp:tr>\
<hp:tc rowAddr=\"99\" colAddr=\"99\" rowSpan=\"1\" colSpan=\"1\" extra=\"X\"><hp:subList><hp:p><hp:run><hp:t>본문</hp:t></hp:run></hp:p></hp:subList></hp:tc>\
<hp:tc rowAddr=\"99\" colAddr=\"99\" rowSpan=\"1\" colSpan=\"1\"><hp:subList><hp:p><hp:run><hp:t>본문2</hp:t></hp:run></hp:p></hp:subList></hp:tc>\
</hp:tr></hp:tbl>";
    let out = recompute_table_addrs(tbl).unwrap();
    assert!(out.contains("hint=\"keep\""));
    assert!(out.contains("extra=\"X\""));
    assert!(out.contains("<hp:t>본문</hp:t>"));
    assert!(out.contains("<hp:t>본문2</hp:t>"));
}

#[test]
fn recompute_nested_table_safety() {
    // 외부 셀의 colSpan/rowSpan만 잡고, 내부 nested cell의 cellSpan은 무시되어야 함
    let tbl = "<hp:tbl rowCnt=\"0\" colCnt=\"1\">\
<hp:tr>\
<hp:tc rowAddr=\"99\" colAddr=\"99\" rowSpan=\"1\" colSpan=\"1\">\
<hp:subList><hp:p>\
<hp:tbl rowCnt=\"99\" colCnt=\"2\"><hp:tr>\
<hp:tc rowAddr=\"55\" colAddr=\"55\" rowSpan=\"1\" colSpan=\"1\"><hp:subList><hp:p/></hp:subList></hp:tc>\
<hp:tc rowAddr=\"55\" colAddr=\"55\" rowSpan=\"1\" colSpan=\"1\"><hp:subList><hp:p/></hp:subList></hp:tc>\
</hp:tr></hp:tbl>\
</hp:p></hp:subList>\
</hp:tc>\
</hp:tr></hp:tbl>";
    let out = recompute_table_addrs(tbl).unwrap();
    // 외부 셀 0,0 — 갱신됨
    assert!(out.contains("rowAddr=\"0\" colAddr=\"0\""));
    // nested table도 자체적으로 recompute됨 (재귀적 처리) → "rowAddr=\"55\"" 사라져야 함
    assert!(!out.contains("rowAddr=\"55\""));
    assert!(!out.contains("colAddr=\"55\""));
    // outermost rowCnt=1
    assert!(out.starts_with("<hp:tbl rowCnt=\"1\""));
}

// ─── Stage 3: table-aware paste 통합 ───

#[test]
fn paste_fragment_table_auto_recomputes() {
    let section = empty_section();
    let mut header = empty_header();
    // 표 fragment는 paragraph로 래핑되어야 한다 — <hp:p> 안에 <hp:tbl>
    let fragment = "<hp:p paraPrIDRef=\"0\"><hp:tbl rowCnt=\"99\" colCnt=\"2\">\
<hp:tr>\
<hp:tc rowAddr=\"99\" colAddr=\"99\" rowSpan=\"1\" colSpan=\"1\"><hp:subList><hp:p/></hp:subList></hp:tc>\
<hp:tc rowAddr=\"99\" colAddr=\"99\" rowSpan=\"1\" colSpan=\"1\"><hp:subList><hp:p/></hp:subList></hp:tc>\
</hp:tr></hp:tbl></hp:p>";
    let source = SourceDefinitions::default();
    let result =
        paste_fragment_into_section(&section, &mut header, 0, fragment, &source).unwrap();
    // rowCnt 99 → 1로 보정
    assert!(result.new_section_xml.contains("rowCnt=\"1\""));
    assert!(!result.new_section_xml.contains("rowAddr=\"99\""));
}

#[test]
fn paste_fragment_paragraphs_only_unchanged() {
    // 표가 없는 fragment는 paste_paragraphs_into_section 동작과 동일
    let section = empty_section();
    let mut header = empty_header();
    let fragment =
        r#"<hp:p paraPrIDRef="0"><hp:run charPrIDRef="0"><hp:t>x</hp:t></hp:run></hp:p>"#;
    let source = SourceDefinitions::default();
    let result =
        paste_fragment_into_section(&section, &mut header, 0, fragment, &source).unwrap();
    assert_eq!(result.inserted_para_count, 1);
}

#[test]
fn header_insertion_missing_returns_error() {
    // 닫는 charPropertyList 태그가 없는 손상된 header
    let mut header = "<hh:head><hh:charPr id=\"5\"/></hh:head>".to_string();
    let source = SourceDefinitions {
        char_prs: "<hh:charPr id=\"9\" height=\"2000\"/>".into(),
        ..Default::default()
    };
    let err = build_id_remap(&mut header, &source).unwrap_err();
    assert!(matches!(
        err,
        FragmentPasteError::HeaderInsertionPointMissing(_)
    ));
}

#[test]
fn top_level_spans_are_paragraph_elements_in_order() {
    let section = "<hs:sec><hp:p id=\"a\"><hp:run><hp:t>one</hp:t></hp:run></hp:p><hp:p/>\
<hp:p id=\"b\"><hp:subList><hp:p id=\"inner\"></hp:p></hp:subList></hp:p></hs:sec>";
    let spans = find_top_level_p_spans(section);
    assert_eq!(spans.len(), 3);
    for (a, b) in &spans {
        let text = &section[*a..*b];
        assert!(text == "<hp:p/>" || (text.starts_with("<hp:p ") && text.ends_with("</hp:p>")));
    }
    assert!(spans.windows(2).all(|w| w[0].1 < w[1].1));
    assert_eq!(&section[spans[1].0..spans[1].1], "<hp:p/>");
    assert!(section[spans[2].0..spans[2].1].contains("inner"));
}

#[test]
fn second_merge_with_same_source_changes_nothing() {
    let mut header = header_with(
        "<hh:charPr id=\"5\" height=\"1000\"/>",
        "<hh:paraPr id=\"2\"/>",
        "<hh:style id=\"0\" name=\"def\"/>",
        "<hh:borderFill id=\"1\"/>",
    );
    let source = SourceDefinitions {
        char_prs: "<hh:charPr id=\"9\" height=\"2000\"/>".into(),
        para_prs: "<hh:paraPr id=\"4\" align=\"left\"/>".into(),
        styles: "".into(),
        border_fills: "<hh:borderFill id=\"1\"/>".into(),
    };
    let r1 = build_id_remap(&mut header, &source).unwrap();
    let h1 = header.clone();
    let r2 = build_id_remap(&mut header, &source).unwrap();
    assert_eq!(header, h1);
    assert_eq!(r1.char_pr, r2.char_pr);
    assert_eq!(r1.para_pr, r2.para_pr);
    assert_eq!(r1.style, r2.style);
    assert_eq!(r1.border_fill, r2.border_fill);
}

#[test]
fn recompute_table_addrs_twice_gives_the_same() {
    let tbl = "<hp:tbl rowCnt=\"0\" colCnt=\"3\">\
<hp:tr>\
<hp:tc rowAddr=\"99\" colAddr=\"99\" rowSpan=\"2\" colSpan=\"2\"><hp:subList><hp:p/></hp:subList></hp:tc>\
<hp:tc rowAddr=\"99\" colAddr=\"99\" rowSpan=\"1\" colSpan=\"1\"><hp:subList><hp:p/></hp:subList></hp:tc>\
</hp:tr><hp:tr>\
<hp:tc rowAddr=\"99\" colAddr=\"99\" rowSpan=\"1\" colSpan=\"1\"><hp:subList><hp:p/></hp:subList></hp:tc>\
</hp:tr></hp:tbl>";
    let once = recompute_table_addrs(tbl).unwrap();
    let twice = recompute_table_addrs(&once).unwrap();
    assert_eq!(once, twice);
}
