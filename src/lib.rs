//! Navigation and range queries over an ordered map keyed by `u32`.
//!
//! The extension trait [`SortedMapExt`] adds endpoint, nearest-key and
//! half-open range operations to `std::collections::BTreeMap`.

pub mod iter;
pub mod laws;
pub mod navigation;
pub mod ranges;
pub mod sortedmap;

pub use iter::{BTreeMapRangeIter, BTreeMapRangeRemoveIter};
pub use sortedmap::SortedMapExt;
