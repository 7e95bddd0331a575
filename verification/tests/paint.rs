use rhwp::paint::paint_op::TextDecorationKind;
use rhwp::paint::resources::{image_resource_key, resource_digest_hex, svg_resource_key};
use rhwp::paint::schema::layer_tree_schema;

#[test]
fn resource_digest_is_stable_and_content_dependent() {
    let digest = resource_digest_hex(&[1, 2, 3, 4]);
    assert_eq!(digest.len(), 64);
    assert_eq!(digest, resource_digest_hex(&[1, 2, 3, 4]));
    assert_ne!(digest, resource_digest_hex(&[1, 2, 3, 5]));
}

#[test]
fn resource_keys_include_kind_algorithm_length_and_digest() {
    assert_eq!(image_resource_key(4, "abcd"), "img:blake3:4:abcd");
    assert_eq!(
        svg_resource_key(6, "0123456789abcdef"),
        "svg:blake3:6:0123456789abcdef"
    );
}

#[test]
fn layer_tree_schema_contract_is_stable() {
    assert_eq!(layer_tree_schema().schema_version, 1);
    assert_eq!(layer_tree_schema().resource_table_version, 1);
    assert_eq!(layer_tree_schema().unit, "px");
    assert_eq!(layer_tree_schema().coordinate_system, "page-top-left");
}

#[test]
fn text_decoration_names() {
    assert_eq!(TextDecorationKind::Underline.as_str(), "underline");
    assert_eq!(TextDecorationKind::Strikethrough.as_str(), "strikethrough");
    assert_eq!(TextDecorationKind::EmphasisDot.as_str(), "emphasisDot");
}
