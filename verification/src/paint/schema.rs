//! Versioned root metadata of page layer-tree JSON exports.

use vstd::prelude::*;

verus! {

/// Versioned root metadata for page layer-tree JSON exports.
#[derive(Debug, Clone, Copy, PartialEq, Eq)]
pub struct LayerTreeSchema {
    pub schema_version: u32,
    pub resource_table_version: u32,
    pub unit: &'static str,
    pub coordinate_system: &'static str,
}

pub const PAGE_LAYER_TREE_SCHEMA_VERSION: u32 = 1;

pub const PAGE_LAYER_TREE_RESOURCE_TABLE_VERSION: u32 = 1;

pub const PAGE_LAYER_TREE_UNIT: &'static str = "px";

pub const PAGE_LAYER_TREE_COORDINATE_SYSTEM: &'static str = "page-top-left";

/// The schema of the layer-tree exports: version 1 of the tree and of its
/// resource table, pixel units, origin at the top left of the page.
pub fn layer_tree_schema() -> (r: LayerTreeSchema)
    ensures
        r.schema_version == 1,
        r.resource_table_version == 1,
        r.unit == PAGE_LAYER_TREE_UNIT,
        r.coordinate_system == PAGE_LAYER_TREE_COORDINATE_SYSTEM,
{
    LayerTreeSchema {
        schema_version: PAGE_LAYER_TREE_SCHEMA_VERSION,
        resource_table_version: PAGE_LAYER_TREE_RESOURCE_TABLE_VERSION,
        unit: PAGE_LAYER_TREE_UNIT,
        coordinate_system: PAGE_LAYER_TREE_COORDINATE_SYSTEM,
    }
}

} // verus!
