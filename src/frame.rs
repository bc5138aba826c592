//! The per-frame section store and the decisions of the section loaders.

use std::collections::BTreeMap;

use vstd::prelude::*;

use crate::error::FrameError;
use crate::toc::TocGroupKind;

verus! {

/// How a frame codes its pixels.
#[derive(Debug, Clone, Copy, PartialEq, Eq, Structural)]
pub enum Encoding {
    VarDct,
    Modular,
}

/// The parsed sections of a frame: LF-global (`G`), LF-groups (`L`),
/// HF-global (`H`) and pass-groups (`P`).
///
/// `hf_global` is `None` until read, `Some(None)` where the frame has none.
#[derive(Debug)]
pub struct FrameData<G, L, H, P> {
    pub lf_global: Option<G>,
    pub lf_group: BTreeMap<u32, L>,
    pub hf_global: Option<Option<H>>,
    pub group_pass: BTreeMap<(u32, u32), P>,
}

/// The per-group sections taken out of a frame store on completion.
pub struct GroupSections<L, P> {
    pub lf_group: BTreeMap<u32, L>,
    pub group_pass: BTreeMap<(u32, u32), P>,
}

impl<G, L, H, P> FrameData<G, L, H, P> {
    /// An empty store; HF-global counts as read for a modular frame, which has
    /// none.
    pub fn new(encoding: Encoding) -> (r: Self)
        ensures
            r.lf_global is None,
            r.lf_group@ == Map::<u32, L>::empty(),
            r.group_pass@ == Map::<(u32, u32), P>::empty(),
            r.hf_global == (if encoding == Encoding::VarDct {
                None::<Option<H>>
            } else {
                Some(None::<H>)
            }),
    {
        let hf_global = if encoding == Encoding::VarDct {
            None
        } else {
            Some(None)
        };
        FrameData { lf_global: None, lf_group: BTreeMap::new(), hf_global, group_pass: BTreeMap::new() }
    }

    /// Hands over every LF-group and pass-group section, for merging into the
    /// LF-global image, and leaves both maps empty; fails, changing nothing,
    /// where LF-global was never read.
    pub fn complete(&mut self) -> (r: Result<GroupSections<L, P>, FrameError>)
        ensures
            final(self).lf_global == old(self).lf_global,
            final(self).hf_global == old(self).hf_global,
            match r {
                Ok(g) => {
                    &&& old(self).lf_global is Some
                    &&& g.lf_group@ == old(self).lf_group@
                    &&& g.group_pass@ == old(self).group_pass@
                    &&& final(self).lf_group@ == Map::<u32, L>::empty()
                    &&& final(self).group_pass@ == Map::<(u32, u32), P>::empty()
                },
                Err(FrameError::IncompleteFrameData { field }) => {
                    &&& old(self).lf_global is None
                    &&& field@ == "lf_global"@
                    &&& final(self).lf_group@ == old(self).lf_group@
                    &&& final(self).group_pass@ == old(self).group_pass@
                },
                Err(_) => false,
            },
    {
        if self.lf_global.is_none() {
            proof {
                reveal_strlit("lf_global");
            }
            return Err(FrameError::IncompleteFrameData { field: "lf_global" });
        }
        let mut lf_group: BTreeMap<u32, L> = BTreeMap::new();
        let mut group_pass: BTreeMap<(u32, u32), P> = BTreeMap::new();
        std::mem::swap(&mut lf_group, &mut self.lf_group);
        std::mem::swap(&mut group_pass, &mut self.group_pass);
        Ok(GroupSections { lf_group, group_pass })
    }
}

/// The resolution-shift windows of the passes listed so far: each listed
/// pass ends at `last_pass[j]` with shifts from `trailing_zeros(downsample[j])`
/// up to the previous pass's lower shift (3 for the first); also that lower
/// shift, which the next window starts from.
pub open spec fn listed_shifts(downsample: Seq<u32>, last_pass: Seq<u32>, j: int) -> (Map<u32, (i32, i32)>, i32)
    decreases j,
{
    if j <= 0 {
        (Map::empty(), 3)
    } else {
        let (m, max_shift) = listed_shifts(downsample, last_pass, j - 1);
        let min_shift = downsample[j - 1].trailing_zeros() as i32;
        (m.insert(last_pass[j - 1], (min_shift, max_shift)), min_shift)
    }
}

/// The shift window of every pass boundary of a frame: the listed passes, then
/// the last pass with shifts from 0 up to the last listed lower shift.
pub open spec fn pass_shifts_spec(downsample: Seq<u32>, last_pass: Seq<u32>, num_passes: u32) -> Map<u32, (i32, i32)> {
    let n = if downsample.len() < last_pass.len() {
        downsample.len()
    } else {
        last_pass.len()
    };
    let (m, max_shift) = listed_shifts(downsample, last_pass, n as int);
    m.insert((num_passes - 1) as u32, (0i32, max_shift))
}

/// Maps each pass boundary to the window `(min_shift, max_shift)` of
/// resolution shifts that the passes up to it cover.
pub fn pass_shifts(downsample: &Vec<u32>, last_pass: &Vec<u32>, num_passes: u32) -> (r: BTreeMap<u32, (i32, i32)>)
    requires
        num_passes >= 1,
    ensures
        r@ == pass_shifts_spec(downsample@, last_pass@, num_passes),
{
    broadcast use vstd::std_specs::btree::group_btree_axioms;
    let n: usize = if downsample.len() < last_pass.len() {
        downsample.len()
    } else {
        last_pass.len()
    };
    let mut shifts: BTreeMap<u32, (i32, i32)> = BTreeMap::new();
    let mut max_shift: i32 = 3;
    let mut j: usize = 0;
    while j < n
        invariant
            j <= n,
            n <= downsample@.len(),
            n <= last_pass@.len(),
            (shifts@, max_shift) == listed_shifts(downsample@, last_pass@, j as int),
        decreases n - j,
    {
        let min_shift = downsample[j].trailing_zeros() as i32;
        shifts.insert(last_pass[j], (min_shift, max_shift));
        max_shift = min_shift;
        j = j + 1;
    }
    shifts.insert(num_passes - 1, (0, max_shift));
    shifts
}

} // verus!
