//! Decisions of the section loaders: what to do with each section of the
//! table of contents, and the buffer of sections that arrived before the
//! sections they depend on.

use vstd::prelude::*;

use crate::crop::{keep_section, section_kept, GroupLayout, Rect};
use crate::frame::FrameData;
use crate::toc::{TocGroup, TocGroupKind};

verus! {

/// A section's dependencies have been read: an LF-group needs LF-global, a
/// pass-group needs both LF-global and HF-global.
pub open spec fn deps_met(kind: TocGroupKind, have_lf_global: bool, have_hf_global: bool) -> bool {
    match kind {
        TocGroupKind::LfGroup(_) => have_lf_global,
        TocGroupKind::GroupPass { .. } => have_lf_global && have_hf_global,
        _ => true,
    }
}

/// Whether a section's dependencies have been read.
pub fn section_deps_met(kind: TocGroupKind, have_lf_global: bool, have_hf_global: bool) -> (r: bool)
    ensures
        r == deps_met(kind, have_lf_global, have_hf_global),
{
    match kind {
        TocGroupKind::LfGroup(_) => have_lf_global,
        TocGroupKind::GroupPass { .. } => have_lf_global && have_hf_global,
        _ => true,
    }
}

/// What the serial loader does with a section when it reaches it.
#[derive(Debug, Clone, Copy, PartialEq, Eq, Structural)]
pub enum SectionAction {
    /// Parse LF-global, LF-group 0, HF-global and pass-group (0, 0) in turn.
    ParseAll,
    /// Parse LF-global, then retry the parked sections.
    ParseLfGlobal,
    ParseLfGroup(u32),
    ParseHfGlobal,
    ParsePassGroup { pass_idx: u32, group_idx: u32 },
    /// Keep the raw bytes until the section's dependencies are read.
    Park,
    /// A whole-frame section in a table of contents with several entries.
    Unexpected,
}

pub open spec fn action_spec(kind: TocGroupKind, single_entry: bool, have_lf_global: bool, have_hf_global: bool) -> SectionAction {
    if !deps_met(kind, have_lf_global, have_hf_global) {
        SectionAction::Park
    } else {
        match kind {
            TocGroupKind::All => if single_entry {
                SectionAction::ParseAll
            } else {
                SectionAction::Unexpected
            },
            TocGroupKind::LfGlobal => SectionAction::ParseLfGlobal,
            TocGroupKind::LfGroup(i) => SectionAction::ParseLfGroup(i),
            TocGroupKind::HfGlobal => SectionAction::ParseHfGlobal,
            TocGroupKind::GroupPass { pass_idx, group_idx } => SectionAction::ParsePassGroup { pass_idx, group_idx },
        }
    }
}

impl<G, L, H, P> FrameData<G, L, H, P> {
    /// What to do with a section, given what this store holds so far.
    pub fn action_for(&self, kind: TocGroupKind, single_entry: bool) -> (r: SectionAction)
        ensures
            r == action_spec(kind, single_entry, self.lf_global is Some, self.hf_global is Some),
    {
        if !section_deps_met(kind, self.lf_global.is_some(), self.hf_global.is_some()) {
            return SectionAction::Park;
        }
        match kind {
            TocGroupKind::All => if single_entry {
                SectionAction::ParseAll
            } else {
                SectionAction::Unexpected
            },
            TocGroupKind::LfGlobal => SectionAction::ParseLfGlobal,
            TocGroupKind::LfGroup(i) => SectionAction::ParseLfGroup(i),
            TocGroupKind::HfGlobal => SectionAction::ParseHfGlobal,
            TocGroupKind::GroupPass { pass_idx, group_idx } => SectionAction::ParsePassGroup { pass_idx, group_idx },
        }
    }
}

/// Where the parallel loader sends a section.
#[derive(Debug, Clone, Copy, PartialEq, Eq, Structural)]
pub enum ParallelRoute {
    /// Parse on the main thread: LF-global or HF-global.
    ParseLfGlobal,
    ParseHfGlobal,
    /// Hand the bytes to the LF-group worker.
    QueueLfGroup(u32),
    /// Hand the bytes to the pass-group worker.
    QueuePassGroup { pass_idx: u32, group_idx: u32 },
    /// Nothing to do with it.
    Ignore,
}

pub open spec fn parallel_route_spec(kind: TocGroupKind) -> ParallelRoute {
    match kind {
        TocGroupKind::LfGlobal => ParallelRoute::ParseLfGlobal,
        TocGroupKind::HfGlobal => ParallelRoute::ParseHfGlobal,
        TocGroupKind::LfGroup(i) => ParallelRoute::QueueLfGroup(i),
        TocGroupKind::GroupPass { pass_idx, group_idx } => ParallelRoute::QueuePassGroup { pass_idx, group_idx },
        TocGroupKind::All => ParallelRoute::Ignore,
    }
}

/// Where the parallel loader sends a section: the two global sections are
/// parsed in place, groups go to their worker.
pub fn parallel_route(kind: TocGroupKind) -> (r: ParallelRoute)
    ensures
        r == parallel_route_spec(kind),
{
    match kind {
        TocGroupKind::LfGlobal => ParallelRoute::ParseLfGlobal,
        TocGroupKind::HfGlobal => ParallelRoute::ParseHfGlobal,
        TocGroupKind::LfGroup(i) => ParallelRoute::QueueLfGroup(i),
        TocGroupKind::GroupPass { pass_idx, group_idx } => ParallelRoute::QueuePassGroup { pass_idx, group_idx },
        TocGroupKind::All => ParallelRoute::Ignore,
    }
}

/// Sections kept verbatim until their dependencies are read, in the order
/// they arrived, at most one per kind.
#[derive(Debug)]
pub struct PendingSections {
    pub entries: Vec<(TocGroupKind, Vec<u8>)>,
}

pub open spec fn kinds_unique(s: Seq<(TocGroupKind, Vec<u8>)>) -> bool {
    forall|i: int, j: int| 0 <= i < j < s.len() ==> #[trigger] s[i].0 != #[trigger] s[j].0
}

impl PendingSections {
    pub open spec fn wf(&self) -> bool {
        kinds_unique(self.entries@)
    }

    pub fn new() -> (r: Self)
        ensures
            r.entries@.len() == 0,
            r.wf(),
    {
        PendingSections { entries: Vec::new() }
    }

    /// Keeps the bytes of a section, in place of any kept before for the same
    /// kind.
    pub fn park(&mut self, kind: TocGroupKind, bytes: Vec<u8>)
        requires
            old(self).wf(),
        ensures
            final(self).wf(),
            (exists|i: int| 0 <= i < old(self).entries@.len() && old(self).entries@[i].0 == kind) ==> exists|i: int|
                0 <= i < old(self).entries@.len() && old(self).entries@[i].0 == kind && final(self).entries@
                    == old(self).entries@.update(i, (kind, bytes)),
            (forall|i: int| 0 <= i < old(self).entries@.len() ==> old(self).entries@[i].0 != kind)
                ==> final(self).entries@ == old(self).entries@.push((kind, bytes)),
    {
        let mut i: usize = 0;
        while i < self.entries.len()
            invariant
                i <= self.entries@.len(),
                self.entries@ == old(self).entries@,
                old(self).wf(),
                forall|j: int| 0 <= j < i ==> self.entries@[j].0 != kind,
            decreases self.entries@.len() - i,
        {
            if self.entries[i].0 == kind {
                self.entries.set(i, (kind, bytes));
                proof {
                    let s = final(self).entries@;
                    assert(s == old(self).entries@.update(i as int, (kind, bytes)));
                    assert forall|a: int, b: int| 0 <= a < b < s.len() implies #[trigger] s[a].0 != #[trigger] s[b].0 by {
                        if a != i && b != i {
                            assert(old(self).entries@[a].0 != old(self).entries@[b].0);
                        }
                        if b == i {
                            assert(old(self).entries@[a].0 != old(self).entries@[b].0);
                        }
                        if a == i {
                            assert(old(self).entries@[a].0 != old(self).entries@[b].0);
                        }
                    }
                }
                return;
            }
            i = i + 1;
        }
        self.entries.push((kind, bytes));
        proof {
            let s = self.entries@;
            assert forall|a: int, b: int| 0 <= a < b < s.len() implies #[trigger] s[a].0 != #[trigger] s[b].0 by {
                if b < s.len() - 1 {
                    assert(old(self).entries@[a].0 != old(self).entries@[b].0);
                }
            }
        }
    }

    /// Takes out, in arrival order, the sections whose dependencies are now
    /// read; the others stay, in arrival order.
    pub fn take_ready(&mut self, have_lf_global: bool, have_hf_global: bool) -> (r: Vec<(TocGroupKind, Vec<u8>)>)
        requires
            old(self).wf(),
        ensures
            r@ == old(self).entries@.filter(|e: (TocGroupKind, Vec<u8>)| deps_met(e.0, have_lf_global, have_hf_global)),
            final(self).entries@ == old(self).entries@.filter(
                |e: (TocGroupKind, Vec<u8>)| !deps_met(e.0, have_lf_global, have_hf_global),
            ),
            final(self).wf(),
    {
        let ghost orig = self.entries@;
        let ghost ready_pred = |e: (TocGroupKind, Vec<u8>)| deps_met(e.0, have_lf_global, have_hf_global);
        let ghost wait_pred = |e: (TocGroupKind, Vec<u8>)| !deps_met(e.0, have_lf_global, have_hf_global);
        let mut rest: Vec<(TocGroupKind, Vec<u8>)> = Vec::new();
        std::mem::swap(&mut rest, &mut self.entries);
        let mut ready: Vec<(TocGroupKind, Vec<u8>)> = Vec::new();
        let mut i: usize = 0;
        let n = rest.len();
        proof {
            assert(orig.take(0) =~= Seq::<(TocGroupKind, Vec<u8>)>::empty());
            assert(orig.skip(0) =~= orig);
        }
        while i < n
            invariant
                n == orig.len(),
                i <= n,
                rest@ == orig.skip(i as int),
                forall|x: (TocGroupKind, Vec<u8>)| #[trigger] ready_pred(x) == deps_met(x.0, have_lf_global, have_hf_global),
                forall|x: (TocGroupKind, Vec<u8>)| #[trigger] wait_pred(x) == !deps_met(x.0, have_lf_global, have_hf_global),
                ready@ == orig.take(i as int).filter(ready_pred),
                self.entries@ == orig.take(i as int).filter(wait_pred),
            decreases n - i,
        {
            let e = rest.remove(0);
            let ghost ready_before = ready@;
            let ghost wait_before = self.entries@;
            proof {
                assert(e == orig[i as int]);
                assert(rest@ =~= orig.skip(i + 1));
            }
            let go = section_deps_met(e.0, have_lf_global, have_hf_global);
            if go {
                ready.push(e);
            } else {
                self.entries.push(e);
            }
            proof {
                reveal(Seq::filter);
                let t = orig.take(i + 1);
                assert(t.drop_last() =~= orig.take(i as int));
                assert(t.last() == e);
                assert(t.len() > 0);
                assert(ready_pred(e) == go);
                assert(wait_pred(e) == !go);
                assert(t.filter(ready_pred) == (if go {
                    ready_before.push(e)
                } else {
                    ready_before
                }));
                assert(t.filter(wait_pred) == (if go {
                    wait_before
                } else {
                    wait_before.push(e)
                }));
            }
            i = i + 1;
        }
        proof {
            assert(orig.take(n as int) =~= orig);
            lemma_filter_keeps_unique(orig, wait_pred);
        }
        ready
    }
}

/// Every entry of a filtered sequence is an entry of the sequence.
proof fn lemma_filter_member(
    s: Seq<(TocGroupKind, Vec<u8>)>,
    pred: spec_fn((TocGroupKind, Vec<u8>)) -> bool,
    a: int,
)
    requires
        0 <= a < s.filter(pred).len(),
    ensures
        exists|k: int| 0 <= k < s.len() && s[k] == s.filter(pred)[a],
    decreases s.len(),
{
    reveal(Seq::filter);
    let prefix = s.drop_last();
    if pred(s.last()) && a == s.filter(pred).len() - 1 {
        assert(s[s.len() - 1] == s.filter(pred)[a]);
    } else {
        assert(s.filter(pred)[a] == prefix.filter(pred)[a]);
        lemma_filter_member(prefix, pred, a);
        let k = choose|k: int| 0 <= k < prefix.len() && prefix[k] == prefix.filter(pred)[a];
        assert(s[k] == prefix[k]);
    }
}

/// Filtering keeps the kinds of a sequence without repeats.
proof fn lemma_filter_keeps_unique(s: Seq<(TocGroupKind, Vec<u8>)>, pred: spec_fn((TocGroupKind, Vec<u8>)) -> bool)
    requires
        kinds_unique(s),
    ensures
        kinds_unique(s.filter(pred)),
    decreases s.len(),
{
    reveal(Seq::filter);
    if s.len() > 0 {
        let prefix = s.drop_last();
        assert(kinds_unique(prefix));
        lemma_filter_keeps_unique(prefix, pred);
        let f = s.filter(pred);
        let g = prefix.filter(pred);
        if pred(s.last()) {
            assert(f == g.push(s.last()));
            assert forall|a: int, b: int| 0 <= a < b < f.len() implies #[trigger] f[a].0 != #[trigger] f[b].0 by {
                if b == f.len() - 1 {
                    lemma_filter_member(prefix, pred, a);
                    let k = choose|k: int| 0 <= k < prefix.len() && prefix[k] == g[a];
                    assert(s[k] == prefix[k]);
                    assert(s[k].0 != s[s.len() - 1].0);
                } else {
                    assert(f[a] == g[a] && f[b] == g[b]);
                }
            }
        } else {
            assert(f == g);
        }
    }
}

/// The sections that a cropped load reads, in bitstream order: every section
/// but LF-global (read first, before the crop is known) that the crop keeps.
pub open spec fn cropped_plan(groups: Seq<TocGroup>, region: Option<Rect>, layout: GroupLayout) -> Seq<TocGroup> {
    groups.filter(|g: TocGroup| g.kind != TocGroupKind::LfGlobal && section_kept(region, g.kind, layout))
}

/// Picks, in bitstream order, the sections that a load under `region` reads
/// after LF-global.
pub fn plan_cropped_sections(groups: &Vec<TocGroup>, region: Option<Rect>, layout: GroupLayout) -> (r: Vec<TocGroup>)
    requires
        layout.wf(),
    ensures
        r@ == cropped_plan(groups@, region, layout),
{
    let ghost pred = |g: TocGroup| g.kind != TocGroupKind::LfGlobal && section_kept(region, g.kind, layout);
    let mut r: Vec<TocGroup> = Vec::new();
    let mut i: usize = 0;
    proof {
        reveal(Seq::filter);
        assert(groups@.take(0) =~= Seq::<TocGroup>::empty());
    }
    while i < groups.len()
        invariant
            i <= groups@.len(),
            layout.wf(),
            forall|g: TocGroup| #[trigger] pred(g) == (g.kind != TocGroupKind::LfGlobal && section_kept(region, g.kind, layout)),
            r@ == groups@.take(i as int).filter(pred),
        decreases groups@.len() - i,
    {
        let g = groups[i];
        let ghost before = r@;
        let go = g.kind != TocGroupKind::LfGlobal && keep_section(region, g.kind, layout);
        if go {
            r.push(g);
        }
        proof {
            reveal(Seq::filter);
            let t = groups@.take(i + 1);
            assert(t.drop_last() =~= groups@.take(i as int));
            assert(t.last() == g);
            assert(pred(g) == go);
            assert(t.filter(pred) == (if go {
                before.push(g)
            } else {
                before
            }));
        }
        i = i + 1;
    }
    proof {
        assert(groups@.take(groups@.len() as int) =~= groups@);
    }
    r
}

/// A group section: an LF-group or a pass-group.
pub open spec fn is_group(kind: TocGroupKind) -> bool {
    kind is LfGroup || kind is GroupPass
}

/// The serial loader's bookkeeping after some sections: whether LF-global and
/// HF-global have been read, the kinds parked, and the group kinds parsed.
pub type SerialState = (bool, bool, Seq<TocGroupKind>, Set<TocGroupKind>);

/// Moves every parked section whose dependencies are now read to the parsed
/// set, as `take_ready` does.
pub open spec fn release(lf: bool, hf: bool, pending: Seq<TocGroupKind>, parsed: Set<TocGroupKind>) -> SerialState {
    (
        lf,
        hf,
        pending.filter(|k: TocGroupKind| !deps_met(k, lf, hf)),
        parsed + pending.filter(|k: TocGroupKind| deps_met(k, lf, hf)).to_set(),
    )
}

/// One section through the serial loader of a table of contents with several
/// entries: the action that `action_for` chooses, and a retry of the parked
/// sections after each global section.
pub open spec fn serial_step(st: SerialState, kind: TocGroupKind) -> SerialState {
    let (lf, hf, pending, parsed) = st;
    match action_spec(kind, false, lf, hf) {
        SectionAction::ParseLfGlobal => release(true, hf, pending, parsed),
        SectionAction::ParseHfGlobal => release(lf, true, pending, parsed),
        SectionAction::ParseLfGroup(_) => (lf, hf, pending, parsed.insert(kind)),
        SectionAction::ParsePassGroup { .. } => (lf, hf, pending, parsed.insert(kind)),
        SectionAction::Park => (lf, hf, pending.push(kind), parsed),
        _ => st,
    }
}

/// The serial loader over sections in bitstream order, starting with nothing
/// read but HF-global where the frame has none (`hf_absent`).
pub open spec fn serial_run(kinds: Seq<TocGroupKind>, hf_absent: bool) -> SerialState
    decreases kinds.len(),
{
    if kinds.len() == 0 {
        (false, hf_absent, Seq::empty(), Set::empty())
    } else {
        serial_step(serial_run(kinds.drop_last(), hf_absent), kinds.last())
    }
}

/// The group kinds that the parallel loader hands to its workers.
pub open spec fn parallel_queued(kinds: Seq<TocGroupKind>) -> Set<TocGroupKind> {
    Set::new(
        |k: TocGroupKind|
            kinds.contains(k) && (parallel_route_spec(k) is QueueLfGroup || parallel_route_spec(k) is QueuePassGroup),
    )
}

proof fn lemma_serial_run_invariant(kinds: Seq<TocGroupKind>, hf_absent: bool)
    ensures
        ({
            let (lf, hf, pending, parsed) = serial_run(kinds, hf_absent);
            &&& lf == kinds.contains(TocGroupKind::LfGlobal)
            &&& hf == (hf_absent || kinds.contains(TocGroupKind::HfGlobal))
            &&& forall|k: TocGroupKind| #[trigger] pending.contains(k) ==> !deps_met(k, lf, hf)
            &&& parsed + pending.to_set() == Set::new(|k: TocGroupKind| kinds.contains(k) && is_group(k))
        }),
    decreases kinds.len(),
{
    broadcast use vstd::seq_lib::group_seq_properties;

    if kinds.len() > 0 {
        let prev = kinds.drop_last();
        let kind = kinds.last();
        lemma_serial_run_invariant(prev, hf_absent);
        let (lf, hf, pending, parsed) = serial_run(prev, hf_absent);
        let groups_prev = Set::new(|k: TocGroupKind| prev.contains(k) && is_group(k));
        let groups = Set::new(|k: TocGroupKind| kinds.contains(k) && is_group(k));
        assert(kinds == prev.push(kind));
        assert forall|k: TocGroupKind| kinds.contains(k) <==> (prev.contains(k) || k == kind) by {
            if kinds.contains(k) {
                let i = choose|i: int| 0 <= i < kinds.len() && kinds[i] == k;
                if i < kinds.len() - 1 {
                    assert(prev[i] == k);
                }
            }
            if prev.contains(k) {
                let i = choose|i: int| 0 <= i < prev.len() && prev[i] == k;
                assert(kinds[i] == k);
            }
            if k == kind {
                assert(kinds[kinds.len() - 1] == k);
            }
        }
        let (lf2, hf2, pending2, parsed2) = serial_run(kinds, hf_absent);
        if kind == TocGroupKind::LfGlobal || kind == TocGroupKind::HfGlobal {
            let lf_n = if kind == TocGroupKind::LfGlobal { true } else { lf };
            let hf_n = if kind == TocGroupKind::HfGlobal { true } else { hf };
            let ready = |k: TocGroupKind| deps_met(k, lf_n, hf_n);
            let wait = |k: TocGroupKind| !deps_met(k, lf_n, hf_n);
            assert(pending2 == pending.filter(wait));
            assert(parsed2 == parsed + pending.filter(ready).to_set());
            assert forall|k: TocGroupKind| #[trigger] pending2.contains(k) implies !deps_met(k, lf2, hf2) by {
                pending.lemma_filter_contains_rev(wait, k);
                let i = choose|i: int| 0 <= i < pending2.len() && pending2[i] == k;
                pending.lemma_filter_pred(wait, i);
            }
            assert forall|k: TocGroupKind| (parsed2 + pending2.to_set()).contains(k) <==> groups.contains(k) by {
                if pending.contains(k) {
                    let i = choose|i: int| 0 <= i < pending.len() && pending[i] == k;
                    if deps_met(k, lf_n, hf_n) {
                        pending.lemma_filter_contains(ready, i);
                    } else {
                        pending.lemma_filter_contains(wait, i);
                    }
                }
                if pending.filter(ready).contains(k) {
                    pending.lemma_filter_contains_rev(ready, k);
                }
                if pending2.contains(k) {
                    pending.lemma_filter_contains_rev(wait, k);
                }
                assert((parsed + pending.to_set()).contains(k) <==> groups_prev.contains(k));
            }
            assert(parsed2 + pending2.to_set() =~= groups);
        } else {
            assert forall|k: TocGroupKind| (parsed2 + pending2.to_set()).contains(k) <==> groups.contains(k) by {
                assert((parsed + pending.to_set()).contains(k) <==> groups_prev.contains(k));
                if pending2.contains(k) && !pending.contains(k) {
                    let i = choose|i: int| 0 <= i < pending2.len() && pending2[i] == k;
                    if i < pending.len() {
                        assert(pending[i] == k);
                    }
                }
                if pending.contains(k) {
                    let i = choose|i: int| 0 <= i < pending.len() && pending[i] == k;
                    if !deps_met(kind, lf, hf) {
                        assert(pending2[i] == k);
                    }
                }
                if !deps_met(kind, lf, hf) {
                    assert(pending2[pending2.len() - 1] == kind);
                }
            }
            assert(parsed2 + pending2.to_set() =~= groups);
            assert forall|k: TocGroupKind| #[trigger] pending2.contains(k) implies !deps_met(k, lf2, hf2) by {
                if !deps_met(kind, lf, hf) && is_group(kind) {
                    let i = choose|i: int| 0 <= i < pending2.len() && pending2[i] == k;
                    if i < pending.len() {
                        assert(pending[i] == k);
                    }
                }
            }
        }
    }
}

/// Of the loaders' decisions, as modelled by `serial_run` (`action_for` with a
/// retry of the parked sections after each global section) and
/// `parallel_queued` (`parallel_route`), for a load without crop: once
/// LF-global and HF-global (or its absence) are known, nothing stays parked,
/// and the serial decisions parse exactly the group sections that the parallel
/// decisions hand to the workers. It speaks of the decisions, not of the loops
/// that run them nor of what the section parsers return.
pub proof fn lemma_serial_parallel_same_groups(kinds: Seq<TocGroupKind>, hf_absent: bool)
    requires
        kinds.contains(TocGroupKind::LfGlobal),
        hf_absent || kinds.contains(TocGroupKind::HfGlobal),
    ensures
        serial_run(kinds, hf_absent).2.len() == 0,
        serial_run(kinds, hf_absent).3 == parallel_queued(kinds),
{
    lemma_serial_run_invariant(kinds, hf_absent);
    let (lf, hf, pending, parsed) = serial_run(kinds, hf_absent);
    if pending.len() > 0 {
        assert(pending.contains(pending[0]));
    }
    assert(pending.to_set() =~= Set::empty());
    assert forall|k: TocGroupKind| is_group(k) <==> (parallel_route_spec(k) is QueueLfGroup
        || parallel_route_spec(k) is QueuePassGroup) by {}
    assert(parsed + pending.to_set() =~= parsed);
    assert(parsed =~= parallel_queued(kinds));
}

} // verus!
