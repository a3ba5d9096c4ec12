//! Structure heatmap: line counting, directory aggregation and hotspot
//! detection for a codebase, with Markdown and HTML report rendering.

pub mod text;
pub mod config;
pub mod count;
pub mod order;
pub mod traverse;
pub mod aggregate;
pub mod hotspot;
pub mod output;
