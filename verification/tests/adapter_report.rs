use rhwp::document_core::hwpx_to_hwp::AdapterReport;

#[test]
fn new_report_changed_nothing() {
    let r = AdapterReport::new();
    assert!(!r.changed_anything());
    assert!(r.skipped_reason.is_none());
}

#[test]
fn counted_changes_are_reported() {
    let mut r = AdapterReport::new();
    r.tables_attr_packed = 2;
    assert!(r.changed_anything());
}

#[test]
fn skipped_report_changed_nothing() {
    let mut r = AdapterReport::new();
    r.tables_ctrl_data_synthesized = 1;
    let r = r.no_op("source_format != Hwpx");
    assert_eq!(r.skipped_reason.as_deref(), Some("source_format != Hwpx"));
    assert_eq!(r.tables_ctrl_data_synthesized, 1);
    assert!(!r.changed_anything());
}
