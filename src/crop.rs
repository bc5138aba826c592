//! Crop planning: moving a user region into frame coordinates, widening or
//! dropping it where a global transform forbids partial decoding, and the
//! per-group keep/skip test.

use vstd::prelude::*;

use crate::toc::TocGroupKind;

verus! {

/// A rectangle `(left, top, width, height)`.
pub type Rect = (u32, u32, u32, u32);

/// Axis-aligned bounding boxes overlap, over the integers.
pub open spec fn collides(x0: int, y0: int, w0: int, h0: int, x1: int, y1: int, w1: int, h1: int) -> bool {
    x0 < x1 + w1 && x0 + w0 > x1 && y0 < y1 + h1 && y0 + h0 > y1
}

pub open spec fn rects_collide(a: Rect, b: Rect) -> bool {
    collides(a.0 as int, a.1 as int, a.2 as int, a.3 as int, b.0 as int, b.1 as int, b.2 as int, b.3 as int)
}

/// The point `(px, py)` lies inside the rectangle.
pub open spec fn rect_contains(r: Rect, px: int, py: int) -> bool {
    r.0 <= px < r.0 + r.2 && r.1 <= py < r.1 + r.3
}

/// One rectangle lies wholly to one side of the other on some axis.
pub open spec fn rects_apart(a: Rect, b: Rect) -> bool {
    a.0 + a.2 <= b.0 || b.0 + b.2 <= a.0 || a.1 + a.3 <= b.1 || b.1 + b.3 <= a.1
}

/// Whether two rectangles overlap. Computed without overflow.
pub fn is_aabb_collides(rect0: Rect, rect1: Rect) -> (r: bool)
    ensures
        r == rects_collide(rect0, rect1),
{
    let (x0, y0, w0, h0) = rect0;
    let (x1, y1, w1, h1) = rect1;
    (x0 as u64) < (x1 as u64) + (w1 as u64) && (x0 as u64) + (w0 as u64) > (x1 as u64)
        && (y0 as u64) < (y1 as u64) + (h1 as u64) && (y0 as u64) + (h0 as u64) > (y1 as u64)
}

/// Overlap is symmetric, and two rectangles fail to overlap exactly when one
/// lies wholly to one side of the other on some axis.
pub proof fn lemma_collision_symmetric(a: Rect, b: Rect)
    ensures
        rects_collide(a, b) == rects_collide(b, a),
        !rects_collide(a, b) <==> rects_apart(a, b),
{
}

/// `v - d`, clamped to the range of `u32`.
pub open spec fn sat_sub_signed(v: u32, d: i32) -> u32 {
    if v - d < 0 {
        0
    } else if v - d > u32::MAX {
        u32::MAX
    } else {
        (v - d) as u32
    }
}

/// `a + b`, clamped to the range of `u32`.
pub open spec fn sat_add(a: u32, b: u32) -> u32 {
    if a + b > u32::MAX {
        u32::MAX
    } else {
        (a + b) as u32
    }
}

fn saturating_sub_signed(v: u32, d: i32) -> (r: u32)
    ensures
        r == sat_sub_signed(v, d),
{
    let t: i64 = v as i64 - d as i64;
    if t < 0 {
        0
    } else if t > u32::MAX as i64 {
        u32::MAX
    } else {
        t as u32
    }
}

/// Moves a region given in image coordinates into the coordinates of a frame
/// whose origin sits at `(x0, y0)` of the image (when the frame has a crop).
pub fn translate_region(region: Option<Rect>, have_crop: bool, x0: i32, y0: i32) -> (r: Option<Rect>)
    ensures
        r == match region {
            Some(g) => if have_crop {
                Some((sat_sub_signed(g.0, x0), sat_sub_signed(g.1, y0), g.2, g.3))
            } else {
                Some(g)
            },
            None => None::<Rect>,
        },
{
    match region {
        Some((left, top, width, height)) => {
            if have_crop {
                Some((saturating_sub_signed(left, x0), saturating_sub_signed(top, y0), width, height))
            } else {
                region
            }
        },
        None => None,
    }
}

/// Why a crop request was changed.
#[derive(Debug, Clone, Copy, PartialEq, Eq, Structural)]
pub enum CropNotice {
    /// The frame uses a delta palette: the crop is dropped.
    DeltaPalette,
    /// The frame uses squeeze: the crop is widened to the origin.
    Squeeze,
}

/// The region after the global modular transforms are taken into account.
pub open spec fn adjusted_region(region: Option<Rect>, has_delta_palette: bool, has_squeeze: bool) -> Option<Rect> {
    match region {
        None => None,
        Some(g) => if has_delta_palette {
            None
        } else if has_squeeze {
            Some((0u32, 0u32, sat_add(g.2, g.0), sat_add(g.3, g.1)))
        } else {
            Some(g)
        },
    }
}

/// Drops the crop under a delta palette, and widens it to the origin under
/// squeeze; returns the new region and, where it changed, why.
pub fn adjust_region(region: Option<Rect>, has_delta_palette: bool, has_squeeze: bool) -> (r: (
    Option<Rect>,
    Option<CropNotice>,
))
    ensures
        r.0 == adjusted_region(region, has_delta_palette, has_squeeze),
        r.1 == (if region is None {
            None
        } else if has_delta_palette {
            Some(CropNotice::DeltaPalette)
        } else if has_squeeze {
            Some(CropNotice::Squeeze)
        } else {
            None
        }),
{
    match region {
        None => (None, None),
        Some((left, top, width, height)) => {
            if has_delta_palette {
                (None, Some(CropNotice::DeltaPalette))
            } else if has_squeeze {
                (Some((0, 0, width.saturating_add(left), height.saturating_add(top))), Some(CropNotice::Squeeze))
            } else {
                (region, None)
            }
        },
    }
}

/// Sizes of the group grids of a frame.
#[derive(Debug, Clone, Copy, PartialEq, Eq, Structural)]
pub struct GroupLayout {
    pub lf_group_dim: u32,
    pub lf_groups_per_row: u32,
    pub group_dim: u32,
    pub groups_per_row: u32,
}

impl GroupLayout {
    pub open spec fn wf(&self) -> bool {
        self.lf_groups_per_row > 0 && self.groups_per_row > 0
    }
}

/// A square group of side `dim`, `idx`-th in row-major order over rows of
/// `per_row` groups, overlaps the region.
pub open spec fn group_overlaps(region: Rect, idx: u32, per_row: u32, dim: u32) -> bool
    recommends
        per_row > 0,
{
    collides(
        region.0 as int,
        region.1 as int,
        region.2 as int,
        region.3 as int,
        (idx % per_row) as int * dim as int,
        (idx / per_row) as int * dim as int,
        dim as int,
        dim as int,
    )
}

/// Whether the group's footprint overlaps the region. Computed without
/// overflow.
pub fn is_group_in_region(region: Rect, idx: u32, per_row: u32, dim: u32) -> (r: bool)
    requires
        per_row > 0,
    ensures
        r == group_overlaps(region, idx, per_row, dim),
{
    let col: u32 = idx % per_row;
    let row: u32 = idx / per_row;
    proof {
        assert(col as int * dim as int <= u32::MAX as int * u32::MAX as int) by (nonlinear_arith)
            requires
                col <= u32::MAX,
                dim <= u32::MAX,
        ;
        assert(row as int * dim as int <= u32::MAX as int * u32::MAX as int) by (nonlinear_arith)
            requires
                row <= u32::MAX,
                dim <= u32::MAX,
        ;
    }
    let gx: u128 = col as u128 * dim as u128;
    let gy: u128 = row as u128 * dim as u128;
    let (x0, y0, w0, h0) = region;
    (x0 as u128) < gx + dim as u128 && (x0 as u128) + (w0 as u128) > gx && (y0 as u128) < gy
        + dim as u128 && (y0 as u128) + (h0 as u128) > gy
}

/// Whether a section is read under the given crop (`None`: the whole frame).
pub open spec fn section_kept(region: Option<Rect>, kind: TocGroupKind, layout: GroupLayout) -> bool {
    match region {
        None => true,
        Some(g) => match kind {
            TocGroupKind::LfGroup(i) => group_overlaps(g, i, layout.lf_groups_per_row, layout.lf_group_dim),
            TocGroupKind::GroupPass { pass_idx: _, group_idx } => group_overlaps(
                g,
                group_idx,
                layout.groups_per_row,
                layout.group_dim,
            ),
            _ => true,
        },
    }
}

/// Whether a section is read under the given crop: frame-wide sections always,
/// a group only where its footprint overlaps the region.
pub fn keep_section(region: Option<Rect>, kind: TocGroupKind, layout: GroupLayout) -> (r: bool)
    requires
        layout.wf(),
    ensures
        r == section_kept(region, kind, layout),
{
    match region {
        None => true,
        Some(g) => match kind {
            TocGroupKind::LfGroup(i) => is_group_in_region(g, i, layout.lf_groups_per_row, layout.lf_group_dim),
            TocGroupKind::GroupPass { pass_idx: _, group_idx } => is_group_in_region(
                g,
                group_idx,
                layout.groups_per_row,
                layout.group_dim,
            ),
            _ => true,
        },
    }
}

/// Two regions that together cover the frame `(0, 0, width, height)` keep,
/// between them, every group whose footprint starts inside the frame: decoding
/// both reads every group that a whole-frame decode reads.
pub proof fn lemma_covering_regions_keep_every_group(
    a: Rect,
    b: Rect,
    width: u32,
    height: u32,
    idx: u32,
    per_row: u32,
    dim: u32,
)
    requires
        per_row > 0,
        dim > 0,
        forall|px: int, py: int|
            0 <= px < width && 0 <= py < height ==> #[trigger] rect_contains(a, px, py) || rect_contains(b, px, py),
        ((idx % per_row) as int * dim as int) < width,
        ((idx / per_row) as int * dim as int) < height,
    ensures
        group_overlaps(a, idx, per_row, dim) || group_overlaps(b, idx, per_row, dim),
{
    let gx = (idx % per_row) as int * dim as int;
    let gy = (idx / per_row) as int * dim as int;
    assert(gx >= 0 && gy >= 0) by (nonlinear_arith)
        requires
            gx == (idx % per_row) as int * dim as int,
            gy == (idx / per_row) as int * dim as int,
            per_row > 0,
    ;
    assert(rect_contains(a, gx, gy) || rect_contains(b, gx, gy));
}

} // verus!
