//! Section kinds of a frame's table of contents.

use vstd::prelude::*;

verus! {

/// What a section of the table of contents holds.
#[derive(Debug, Clone, Copy, PartialEq, Eq, Structural, Hash, PartialOrd, Ord)]
pub enum TocGroupKind {
    /// Every section concatenated (single-entry table of contents).
    All,
    /// Frame-wide low-frequency parameters.
    LfGlobal,
    /// One low-frequency group, by index.
    LfGroup(u32),
    /// Frame-wide high-frequency parameters.
    HfGlobal,
    /// One group of one progressive pass.
    GroupPass { pass_idx: u32, group_idx: u32 },
}

/// One entry of the table of contents: a kind, an absolute offset and a size
/// in bytes.
#[derive(Debug, Clone, Copy, PartialEq, Eq, Structural)]
pub struct TocGroup {
    pub kind: TocGroupKind,
    pub offset: u64,
    pub size: u32,
}

} // verus!
