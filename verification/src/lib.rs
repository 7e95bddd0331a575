//! Verified core of the rhwp HWP/HWPX document toolkit.

pub mod scan;
pub mod text;
pub mod decimal;
pub mod fragment_paste;
pub mod emf;
pub mod renderer;
pub mod parser;
pub mod paint;
pub mod ooxml_chart;
pub mod model;
pub mod error;
pub mod document_core;
pub mod desktop;
