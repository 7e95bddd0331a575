use rhwp::document_core::common_obj_attr_writer::serialize_common_obj_attr;
use rhwp::document_core::hwpx_to_hwp::{convert_hwpx_to_hwp_ir, convert_if_hwpx_source};
use rhwp::model::{Cell, CommonObjAttr, Control, Document, Paragraph, Section, Table};
use rhwp::parser::FileFormat;

#[test]
fn empty_doc_no_change() {
    let mut doc = Document::default();
    let report = convert_hwpx_to_hwp_ir(&mut doc);
    assert!(!report.changed_anything());
    assert!(report.skipped_reason.is_none());
}

#[test]
fn hwp_source_no_op_via_filter() {
    let mut doc = Document::default();
    let report = convert_if_hwpx_source(&mut doc, FileFormat::Hwp);
    assert_eq!(report.skipped_reason.as_deref(), Some("source_format != Hwpx"));
}

#[test]
fn idempotent_when_called_twice() {
    let mut doc = Document::default();
    let r1 = convert_hwpx_to_hwp_ir(&mut doc);
    let r2 = convert_hwpx_to_hwp_ir(&mut doc);
    assert_eq!(r2.tables_ctrl_data_synthesized, 0);
    assert_eq!(r1, r2);
}

fn common_with_attr(attr: u32) -> CommonObjAttr {
    let mut c = CommonObjAttr::default();
    c.attr = attr;
    c.width = 0x0102_0304;
    c.z_order = -1;
    c.margin = [1, -2, 3, 4];
    c.description = "표A".to_string();
    c
}

fn doc_with_table(table: Table) -> Document {
    let mut p = Paragraph::default();
    p.controls.push(Control::Table(Box::new(table)));
    let mut section = Section::default();
    section.paragraphs.push(p);
    let mut doc = Document::default();
    doc.sections.push(section);
    doc
}

fn first_table(doc: &Document) -> &Table {
    match &doc.sections[0].paragraphs[0].controls[0] {
        Control::Table(t) => t,
        _ => panic!("expected a table"),
    }
}

#[test]
fn common_obj_attr_record_layout() {
    let bytes = serialize_common_obj_attr(&common_with_attr(0x0A0B_0C0D));
    // attr, voff, hoff, width, height, z-order
    assert_eq!(&bytes[0..4], &[0x0D, 0x0C, 0x0B, 0x0A]);
    assert_eq!(&bytes[12..16], &[0x04, 0x03, 0x02, 0x01]);
    assert_eq!(&bytes[20..24], &[0xFF, 0xFF, 0xFF, 0xFF]);
    // margins
    assert_eq!(&bytes[24..32], &[1, 0, 0xFE, 0xFF, 3, 0, 4, 0]);
    // description: length in UTF-16 units, then UTF-16LE
    assert_eq!(&bytes[40..42], &[2, 0]);
    assert_eq!(&bytes[42..46], &[0x5C, 0xD4, 0x41, 0x00]);
    assert_eq!(bytes.len(), 46);
}

#[test]
fn table_without_control_data_gets_record_and_attr() {
    let mut t = Table::default();
    t.common = common_with_attr(0x0820_0211);
    let mut doc = doc_with_table(t);
    let report = convert_hwpx_to_hwp_ir(&mut doc);
    assert_eq!(report.tables_ctrl_data_synthesized, 1);
    assert_eq!(report.tables_attr_packed, 1);
    assert!(report.changed_anything());
    let t = first_table(&doc);
    assert_eq!(t.attr, 0x0820_0211);
    assert_eq!(t.raw_ctrl_data, serialize_common_obj_attr(&common_with_attr(0x0820_0211)));

    // a second run changes nothing
    let r2 = convert_hwpx_to_hwp_ir(&mut doc);
    assert_eq!(r2.tables_ctrl_data_synthesized, 0);
    assert_eq!(r2.tables_attr_packed, 0);
    assert!(!r2.changed_anything());
    assert_eq!(first_table(&doc).attr, 0x0820_0211);
}

#[test]
fn table_with_control_data_keeps_it() {
    let mut t = Table::default();
    t.raw_ctrl_data = vec![0, 0, 0, 0, 9];
    t.attr = 0;
    let mut doc = doc_with_table(t);
    let report = convert_hwpx_to_hwp_ir(&mut doc);
    assert_eq!(report.tables_ctrl_data_synthesized, 0);
    assert_eq!(report.tables_attr_packed, 0);
    assert_eq!(first_table(&doc).raw_ctrl_data, vec![0, 0, 0, 0, 9]);
    assert_eq!(first_table(&doc).attr, 0);
}

#[test]
fn nested_tables_are_adapted() {
    let mut inner = Table::default();
    inner.common = common_with_attr(7);
    let mut cell_para = Paragraph::default();
    cell_para.controls.push(Control::Table(Box::new(inner)));
    let mut cell = Cell::default();
    cell.paragraphs.push(cell_para);
    let mut outer = Table::default();
    outer.attr = 5;
    outer.raw_ctrl_data = vec![1, 2, 3, 4];
    outer.cells.push(cell);
    let mut doc = doc_with_table(outer);
    let report = convert_hwpx_to_hwp_ir(&mut doc);
    assert_eq!(report.tables_ctrl_data_synthesized, 1);
    assert_eq!(report.tables_attr_packed, 1);
    let outer = first_table(&doc);
    assert_eq!(outer.attr, 5);
    match &outer.cells[0].paragraphs[0].controls[0] {
        Control::Table(t) => assert_eq!(t.attr, 7),
        _ => panic!("expected the inner table"),
    }
}

#[test]
fn hwp_source_leaves_tables_alone() {
    let mut t = Table::default();
    t.common = common_with_attr(3);
    let mut doc = doc_with_table(t);
    let report = convert_if_hwpx_source(&mut doc, FileFormat::Hwp);
    assert!(!report.changed_anything());
    assert!(first_table(&doc).raw_ctrl_data.is_empty());
    let report = convert_if_hwpx_source(&mut doc, FileFormat::Hwpx);
    assert_eq!(report.tables_ctrl_data_synthesized, 1);
}
