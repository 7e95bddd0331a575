//! Paint-layer metadata: resource keys, the layer-tree schema and paint-op kinds.

pub mod resources;
pub mod schema;
pub mod paint_op;
