use rhwp::parser::ole_container::{parse_ole_container, strip_ole_presentation_header, OleContainer};

#[test]
fn test_strip_no_emf_magic() {
    let data = vec![0u8; 100];
    assert!(strip_ole_presentation_header(&data).is_none());
}

#[test]
fn test_strip_emf_at_offset() {
    // 20-byte header + EMR_HEADER (type=1, size, 32 bytes of bounds/frame, " EMF")
    let mut data = vec![0u8; 20];
    data.extend_from_slice(&1u32.to_le_bytes());
    data.extend_from_slice(&100u32.to_le_bytes());
    data.extend_from_slice(&[0u8; 32]);
    data.extend_from_slice(b" EMF");
    data.extend_from_slice(&[0xAA; 20]);

    let stripped = strip_ole_presentation_header(&data).expect("EMF should be found");
    assert_eq!(&stripped[..4], &1u32.to_le_bytes());
    assert_eq!(&stripped[40..44], b" EMF");
}

#[test]
fn test_parse_empty_bytes() {
    assert!(parse_ole_container(&[]).is_none());
    assert!(parse_ole_container(&[0u8; 4]).is_none());
}

#[test]
fn test_parse_non_cfb() {
    let bytes: Vec<u8> = (0..128u8).collect();
    assert!(parse_ole_container(&bytes).is_none());
}

#[test]
fn container_flags_need_non_empty_streams() {
    let c = OleContainer {
        preview_emf: Some(vec![]),
        ooxml_chart: Some(vec![1]),
        raw_contents: None,
    };
    assert!(!c.has_preview());
    assert!(c.has_ooxml_chart());
}
