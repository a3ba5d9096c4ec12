//! Report rendering.

pub mod html;
pub mod markdown;

use vstd::prelude::*;
use crate::hotspot::HotspotKind;

verus! {

/// A hotspot as a report shows it.
#[derive(Debug, Clone)]
pub struct HotspotRow {
    pub path: String,
    pub kind: HotspotKind,
    pub lines: usize,
    /// The median of the siblings, rounded down.
    pub baseline: usize,
    /// The ratio of `lines` to the median, written with one decimal.
    pub ratio: String,
}

} // verus!
