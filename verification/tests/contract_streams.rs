use rhwp::parser::hwpx::contract_streams::{contract_streams_of, extract_contract_streams};
use std::io::Read;

#[test]
fn zlib_deflate_roundtrip() {
    let input = b"hello rhwp scripts test";
    let streams = extract_contract_streams(None, None, Some(&input[..])).streams;
    assert_eq!(streams.len(), 1);
    assert_eq!(streams[0].0, "/Scripts/DefaultJScript");
    let compressed = &streams[0].1;
    let mut decoder = flate2::read::ZlibDecoder::new(&compressed[..]);
    let mut decoded = Vec::new();
    decoder
        .read_to_end(&mut decoded)
        .expect("zlib inflate failed");
    assert_eq!(decoded, input);
}

#[test]
fn preview_text_becomes_utf16le() {
    let streams = contract_streams_of(Some("A한\u{1F600}"), None, None).streams;
    assert_eq!(streams.len(), 1);
    assert_eq!(streams[0].0, "/PrvText");
    assert_eq!(
        streams[0].1,
        vec![0x41, 0x00, 0x5C, 0xD5, 0x3D, 0xD8, 0x00, 0xDE]
    );
}

#[test]
fn streams_come_in_order_and_only_when_present() {
    let streams = extract_contract_streams(Some("x"), Some(vec![0x89, 0x50]), Some(&b"s"[..])).streams;
    let names: Vec<&str> = streams.iter().map(|s| s.0.as_str()).collect();
    assert_eq!(names, vec!["/PrvText", "/PrvImage", "/Scripts/DefaultJScript"]);
    assert_eq!(streams[1].1, vec![0x89, 0x50]);

    let none = extract_contract_streams(None, None, None).streams;
    assert!(none.is_empty());

    let image_only = contract_streams_of(None, Some(vec![1, 2, 3]), None).streams;
    assert_eq!(image_only.len(), 1);
    assert_eq!(image_only[0].0, "/PrvImage");
}
