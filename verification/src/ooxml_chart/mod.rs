//! OOXML (DrawingML) charts of OLE objects: the chart kinds and the colours
//! of the native SVG rendering.

pub mod renderer;
pub mod parser;

use vstd::prelude::*;

verus! {

/// Chart kinds.
#[derive(Debug, Clone, Copy, PartialEq, Default)]
pub enum OoxmlChartType {
    /// Vertical bars (`barDir=col`).
    Column,
    /// Horizontal bars (`barDir=bar`).
    Bar,
    /// Lines.
    Line,
    /// Pie.
    Pie,
    #[default]
    Unknown,
}

impl OoxmlChartType {
    /// The display name of the chart kind.
    pub fn label(&self) -> (r: &'static str)
        ensures
            r == match *self {
                OoxmlChartType::Column => "세로 막대",
                OoxmlChartType::Bar => "가로 막대",
                OoxmlChartType::Line => "꺾은선",
                OoxmlChartType::Pie => "원형",
                OoxmlChartType::Unknown => "미지원",
            },
    {
        match self {
            OoxmlChartType::Column => "세로 막대",
            OoxmlChartType::Bar => "가로 막대",
            OoxmlChartType::Line => "꺾은선",
            OoxmlChartType::Pie => "원형",
            OoxmlChartType::Unknown => "미지원",
        }
    }
}

} // verus!
