use jxl_frame_core::crop::{
    adjust_region, is_aabb_collides, is_group_in_region, keep_section, translate_region, CropNotice,
    GroupLayout,
};
use jxl_frame_core::dct::DctDirection;
use jxl_frame_core::error::FrameError;
use jxl_frame_core::frame::{pass_shifts, Encoding, FrameData};
use jxl_frame_core::loader::{parallel_route, plan_cropped_sections, section_deps_met, ParallelRoute, PendingSections, SectionAction};
use jxl_frame_core::numeric::log2_ceil;
use jxl_frame_core::spline::{
    check_num_points, check_num_splines, quant_spline_from_raw, start_points_from_raw, unpack_signed, QuantSpline,
    Splines,
};
use jxl_frame_core::toc::{TocGroup, TocGroupKind};

type Data = FrameData<u8, u16, u32, u64>;

#[test]
fn log2_ceil_of_powers_and_neighbours() {
    assert_eq!(log2_ceil(1), 0);
    assert_eq!(log2_ceil(2), 1);
    assert_eq!(log2_ceil(3), 2);
    assert_eq!(log2_ceil(4), 2);
    assert_eq!(log2_ceil(5), 3);
    for k in 1..63u32 {
        assert_eq!(log2_ceil(1u64 << k), k);
        assert_eq!(log2_ceil((1u64 << k) + 1), k + 1);
    }
    assert_eq!(log2_ceil(1u64 << 63), 63);
}

#[test]
fn aabb_overlap_and_touching() {
    assert!(is_aabb_collides((0, 0, 10, 10), (5, 5, 10, 10)));
    assert!(is_aabb_collides((5, 5, 10, 10), (0, 0, 10, 10)));
    // Touching edges do not overlap.
    assert!(!is_aabb_collides((0, 0, 10, 10), (10, 0, 10, 10)));
    assert!(!is_aabb_collides((10, 0, 10, 10), (0, 0, 10, 10)));
    assert!(!is_aabb_collides((0, 0, 10, 10), (0, 10, 10, 10)));
    // Containment overlaps.
    assert!(is_aabb_collides((0, 0, 100, 100), (10, 10, 1, 1)));
    // A zero-sized rectangle strictly inside still counts, one on the edge
    // does not.
    assert!(is_aabb_collides((5, 5, 0, 0), (0, 0, 10, 10)));
    assert!(!is_aabb_collides((0, 0, 0, 0), (0, 0, 10, 10)));
    // Sums past u32::MAX do not wrap.
    assert!(is_aabb_collides((u32::MAX - 1, 0, u32::MAX, 10), (u32::MAX - 1, 0, 1, 1)));
    assert!(!is_aabb_collides((0, 0, 1, 1), (u32::MAX, u32::MAX, u32::MAX, u32::MAX)));
}

#[test]
fn crop_with_squeeze_widens_to_origin() {
    let (region, notice) = adjust_region(Some((50, 50, 100, 100)), false, true);
    assert_eq!(region, Some((0, 0, 150, 150)));
    assert_eq!(notice, Some(CropNotice::Squeeze));
}

#[test]
fn crop_with_delta_palette_is_dropped() {
    let (region, notice) = adjust_region(Some((50, 50, 100, 100)), true, false);
    assert_eq!(region, None);
    assert_eq!(notice, Some(CropNotice::DeltaPalette));
    // Delta palette wins over squeeze.
    let (region, notice) = adjust_region(Some((50, 50, 100, 100)), true, true);
    assert_eq!(region, None);
    assert_eq!(notice, Some(CropNotice::DeltaPalette));
}

#[test]
fn crop_without_transforms_or_region_is_unchanged() {
    assert_eq!(adjust_region(Some((1, 2, 3, 4)), false, false), (Some((1, 2, 3, 4)), None));
    assert_eq!(adjust_region(None, true, true), (None, None));
    let (region, _) = adjust_region(Some((u32::MAX, 7, u32::MAX, 3)), false, true);
    assert_eq!(region, Some((0, 0, u32::MAX, 10)));
}

#[test]
fn region_moves_into_frame_coordinates() {
    assert_eq!(translate_region(Some((50, 60, 10, 20)), true, 20, 70), Some((30, 0, 10, 20)));
    assert_eq!(translate_region(Some((50, 60, 10, 20)), true, -5, 0), Some((55, 60, 10, 20)));
    assert_eq!(translate_region(Some((50, 60, 10, 20)), false, 20, 70), Some((50, 60, 10, 20)));
    assert_eq!(translate_region(Some((u32::MAX, 0, 1, 1)), true, i32::MIN, 0), Some((u32::MAX, 0, 1, 1)));
    assert_eq!(translate_region(None, true, 1, 1), None);
}

#[test]
fn group_footprints_against_region() {
    // 4 groups per row of side 256: group 5 sits at (256, 256).
    assert!(is_group_in_region((300, 300, 1, 1), 5, 4, 256));
    assert!(!is_group_in_region((0, 0, 256, 256), 5, 4, 256));
    assert!(is_group_in_region((0, 0, 257, 257), 5, 4, 256));
    let layout = GroupLayout { lf_group_dim: 2048, lf_groups_per_row: 2, group_dim: 256, groups_per_row: 16 };
    let region = Some((0, 0, 100, 100));
    assert!(keep_section(region, TocGroupKind::LfGroup(0), layout));
    assert!(!keep_section(region, TocGroupKind::LfGroup(1), layout));
    assert!(keep_section(region, TocGroupKind::GroupPass { pass_idx: 1, group_idx: 0 }, layout));
    assert!(!keep_section(region, TocGroupKind::GroupPass { pass_idx: 0, group_idx: 1 }, layout));
    assert!(!keep_section(region, TocGroupKind::GroupPass { pass_idx: 0, group_idx: 16 }, layout));
    assert!(keep_section(region, TocGroupKind::LfGlobal, layout));
    assert!(keep_section(region, TocGroupKind::HfGlobal, layout));
    assert!(keep_section(None, TocGroupKind::LfGroup(1), layout));
}

#[test]
fn single_spline_single_point() {
    let spline = QuantSpline::new((10, 20));
    let (points, manhattan) = spline.control_points().unwrap();
    assert_eq!(points, vec![(10, 20)]);
    assert_eq!(manhattan, 0);
}

#[test]
fn two_straight_line_splines() {
    let starts = start_points_from_raw(&vec![(0, 0), (200, 0)]);
    assert_eq!(starts, vec![(0, 0), (100, 0)]);
    let mut first = QuantSpline::new(starts[0]);
    first.points_deltas = vec![(1, 0), (1, 0)];
    let (points, manhattan) = first.control_points().unwrap();
    assert_eq!(points, vec![(0, 0), (1, 0), (3, 0)]);
    assert_eq!(manhattan, 3);
    let mut second = QuantSpline::new(starts[1]);
    second.points_deltas = vec![(1, 0), (1, 0)];
    let (points, manhattan) = second.control_points().unwrap();
    assert_eq!(points, vec![(100, 0), (101, 0), (103, 0)]);
    assert_eq!(manhattan, 3);
}

#[test]
fn start_points_are_zigzag_deltas() {
    // 1 -> -1, 3 -> -2, 4 -> 2.
    let starts = start_points_from_raw(&vec![(7, 9), (1, 3), (4, 0)]);
    assert_eq!(starts, vec![(7, 9), (6, 7), (8, 7)]);
    assert!(start_points_from_raw(&vec![]).is_empty());
    // The first start point is taken as it stands.
    assert_eq!(start_points_from_raw(&vec![(u32::MAX, 5)]), vec![(-1, 5)]);
}

#[test]
fn control_points_follow_second_order_recurrence() {
    let mut spline = QuantSpline::new((-5, 3));
    spline.points_deltas = vec![(2, -1), (-3, 4), (0, 0), (1, -2)];
    let (points, manhattan) = spline.control_points().unwrap();
    assert_eq!(points.len(), 1 + spline.points_deltas.len());
    for k in 1..points.len() - 1 {
        let d = spline.points_deltas[k];
        assert_eq!(points[k + 1].0 - 2 * points[k].0 + points[k - 1].0, d.0);
        assert_eq!(points[k + 1].1 - 2 * points[k].1 + points[k - 1].1, d.1);
    }
    // Running deltas: (2,-1), (-1,3), (-1,3), (0,1).
    assert_eq!(points, vec![(-5, 3), (-3, 2), (-4, 5), (-5, 8), (-5, 9)]);
    assert_eq!(manhattan, 3 + 4 + 4 + 1);
}

#[test]
fn control_points_out_of_range() {
    let mut spline = QuantSpline::new((i32::MAX, 0));
    spline.points_deltas = vec![(1, 0)];
    assert!(spline.control_points().is_none());
    let mut spline = QuantSpline::new((0, 0));
    spline.points_deltas = vec![(i32::MAX, 0), (1, 0)];
    assert!(spline.control_points().is_none());
    let mut spline = QuantSpline::new((i32::MIN, 0));
    spline.points_deltas = vec![(i32::MAX, 0)];
    assert_eq!(spline.control_points().unwrap().0, vec![(i32::MIN, 0), (-1, 0)]);
}

#[test]
fn new_quant_spline_is_empty() {
    let spline = QuantSpline::new((3, 4));
    assert_eq!(spline.start_point, (3, 4));
    assert!(spline.points_deltas.is_empty());
    assert!(spline.xyb_dct.iter().all(|row| row.iter().all(|&v| v == 0)));
    assert!(spline.sigma_dct.iter().all(|&v| v == 0));
}

#[test]
fn splines_from_empty_stream_fail_in_the_entropy_decoder() {
    let bytes: Vec<u8> = Vec::new();
    let mut bitstream = jxl_bitstream::Bitstream::new(&bytes);
    let r = Splines::parse(&mut bitstream, 64, 64);
    assert!(matches!(r, Err(FrameError::Coding(_))));
}

#[test]
fn frame_data_starts_empty() {
    let d: Data = FrameData::new(Encoding::VarDct);
    assert!(d.lf_global.is_none());
    assert!(d.hf_global.is_none());
    assert!(d.lf_group.is_empty() && d.group_pass.is_empty());
    let d: Data = FrameData::new(Encoding::Modular);
    assert!(matches!(d.hf_global, Some(None)));
}

#[test]
fn complete_without_lf_global_fails() {
    let mut d: Data = FrameData::new(Encoding::Modular);
    d.lf_group.insert(0, 7);
    let r = d.complete();
    assert!(matches!(r, Err(FrameError::IncompleteFrameData { field: "lf_global" })));
    assert_eq!(d.lf_group.len(), 1);
}

#[test]
fn complete_hands_over_every_group() {
    let mut d: Data = FrameData::new(Encoding::Modular);
    d.lf_global = Some(1);
    d.lf_group.insert(1, 11);
    d.lf_group.insert(0, 10);
    d.group_pass.insert((0, 3), 3);
    d.group_pass.insert((1, 0), 100);
    let groups = d.complete().ok().unwrap();
    assert_eq!(groups.lf_group.into_iter().collect::<Vec<_>>(), vec![(0, 10), (1, 11)]);
    assert_eq!(groups.group_pass.into_iter().collect::<Vec<_>>(), vec![((0, 3), 3), ((1, 0), 100)]);
    assert!(d.lf_group.is_empty() && d.group_pass.is_empty());
    assert_eq!(d.lf_global, Some(1));
}

#[test]
fn out_of_order_lf_group_is_parked_then_released() {
    let mut d: Data = FrameData::new(Encoding::Modular);
    let mut pending = PendingSections::new();
    assert_eq!(d.action_for(TocGroupKind::LfGroup(0), false), SectionAction::Park);
    pending.park(TocGroupKind::LfGroup(0), vec![1, 2, 3]);
    assert_eq!(d.action_for(TocGroupKind::LfGlobal, false), SectionAction::ParseLfGlobal);
    d.lf_global = Some(9);
    let ready = pending.take_ready(d.lf_global.is_some(), d.hf_global.is_some());
    assert_eq!(ready, vec![(TocGroupKind::LfGroup(0), vec![1, 2, 3])]);
    assert!(pending.entries.is_empty());
    assert_eq!(d.action_for(TocGroupKind::LfGroup(0), false), SectionAction::ParseLfGroup(0));
}

#[test]
fn pass_groups_wait_for_both_globals() {
    let mut d: Data = FrameData::new(Encoding::VarDct);
    let pg = TocGroupKind::GroupPass { pass_idx: 1, group_idx: 2 };
    assert_eq!(d.action_for(pg, false), SectionAction::Park);
    d.lf_global = Some(0);
    assert_eq!(d.action_for(pg, false), SectionAction::Park);
    assert_eq!(d.action_for(TocGroupKind::LfGroup(4), false), SectionAction::ParseLfGroup(4));
    d.hf_global = Some(Some(5));
    assert_eq!(d.action_for(pg, false), SectionAction::ParsePassGroup { pass_idx: 1, group_idx: 2 });
    assert_eq!(d.action_for(TocGroupKind::HfGlobal, false), SectionAction::ParseHfGlobal);
    assert_eq!(d.action_for(TocGroupKind::All, true), SectionAction::ParseAll);
    assert_eq!(d.action_for(TocGroupKind::All, false), SectionAction::Unexpected);
    assert!(!section_deps_met(pg, true, false));
    assert!(section_deps_met(pg, true, true));
}

#[test]
fn pending_keeps_one_entry_per_kind_in_arrival_order() {
    let mut pending = PendingSections::new();
    pending.park(TocGroupKind::GroupPass { pass_idx: 0, group_idx: 0 }, vec![1]);
    pending.park(TocGroupKind::LfGroup(2), vec![2]);
    pending.park(TocGroupKind::LfGroup(3), vec![3]);
    pending.park(TocGroupKind::LfGroup(2), vec![4]);
    assert_eq!(pending.entries.len(), 3);
    let ready = pending.take_ready(true, false);
    assert_eq!(ready, vec![(TocGroupKind::LfGroup(2), vec![4]), (TocGroupKind::LfGroup(3), vec![3])]);
    assert_eq!(pending.entries, vec![(TocGroupKind::GroupPass { pass_idx: 0, group_idx: 0 }, vec![1])]);
    let ready = pending.take_ready(true, true);
    assert_eq!(ready.len(), 1);
    assert!(pending.entries.is_empty());
}

#[test]
fn parallel_routes() {
    assert_eq!(parallel_route(TocGroupKind::LfGlobal), ParallelRoute::ParseLfGlobal);
    assert_eq!(parallel_route(TocGroupKind::HfGlobal), ParallelRoute::ParseHfGlobal);
    assert_eq!(parallel_route(TocGroupKind::LfGroup(3)), ParallelRoute::QueueLfGroup(3));
    assert_eq!(
        parallel_route(TocGroupKind::GroupPass { pass_idx: 1, group_idx: 7 }),
        ParallelRoute::QueuePassGroup { pass_idx: 1, group_idx: 7 }
    );
    assert_eq!(parallel_route(TocGroupKind::All), ParallelRoute::Ignore);
}

#[test]
fn dct_direction_compares() {
    assert_ne!(DctDirection::Forward, DctDirection::Inverse);
    assert_eq!(DctDirection::Inverse, DctDirection::Inverse);
}

fn straight_spline() -> QuantSpline {
    let mut spline = QuantSpline::new((0, 0));
    spline.points_deltas = vec![(1, 0), (1, 0)];
    spline
}

#[test]
fn area_estimate_of_flat_spline() {
    let spline = straight_spline();
    let (_, manhattan) = spline.control_points().unwrap();
    let mut area = 0u64;
    spline.add_estimated_area(0, 0, 1, manhattan, &mut area);
    // 32 unit weights, log colour 1, Manhattan length 3.
    assert_eq!(area, 96);
    spline.add_estimated_area(0, 0, 1, manhattan, &mut area);
    assert_eq!(area, 192);
}

#[test]
fn area_estimate_follows_quant_adjust() {
    let mut spline = straight_spline();
    spline.sigma_dct[0] = 10;
    let mut area = 0u64;
    spline.add_estimated_area(0, 0, 1, 3, &mut area);
    assert_eq!(area, (31 + 100) * 3);
    let mut area = 0u64;
    spline.add_estimated_area(8, 0, 1, 3, &mut area);
    // iqa = 1/2: weight 5.
    assert_eq!(area, (31 + 25) * 3);
    let mut area = 0u64;
    spline.add_estimated_area(-8, 0, 1, 3, &mut area);
    // iqa = 2: weight 20.
    assert_eq!(area, (31 + 400) * 3);
    let mut area = 0u64;
    spline.sigma_dct[0] = -3;
    spline.add_estimated_area(5, 0, 1, 1, &mut area);
    // ceil(3 * 8 / 13) = 2.
    assert_eq!(area, 31 + 4);
}

#[test]
fn area_estimate_log_colour_and_correlation() {
    let mut spline = straight_spline();
    spline.xyb_dct[1][0] = 3;
    let mut area = 0u64;
    // X = 0 + 2 * 3 = 6, Y = 3, B = 0 + 1 * 3; ceil(log2(7)) = 3.
    spline.add_estimated_area(0, 2, 1, 1, &mut area);
    assert_eq!(area, 32 * 3);
    let mut area = 0u64;
    spline.xyb_dct[2][5] = -100;
    // B = 100 + 3; ceil(log2(104)) = 7.
    spline.add_estimated_area(0, 2, 1, 1, &mut area);
    assert_eq!(area, 32 * 7);
}

#[test]
fn area_estimate_saturates_and_ignores_still_paths() {
    let mut spline = straight_spline();
    let mut area = u64::MAX - 10;
    spline.add_estimated_area(0, 0, 1, 3, &mut area);
    assert_eq!(area, u64::MAX);
    spline.sigma_dct = [i32::MIN; 32];
    let mut area = 5u64;
    spline.add_estimated_area(i32::MIN, u32::MAX, u32::MAX, u64::MAX, &mut area);
    assert_eq!(area, u64::MAX);
    let mut area = 5u64;
    spline.add_estimated_area(i32::MIN, u32::MAX, u32::MAX, 0, &mut area);
    assert_eq!(area, 5);
}

#[test]
fn pass_shift_windows() {
    let shifts = pass_shifts(&vec![4, 2], &vec![0, 1], 3);
    assert_eq!(shifts.into_iter().collect::<Vec<_>>(), vec![(0, (2, 3)), (1, (1, 2)), (2, (0, 1))]);
    let shifts = pass_shifts(&vec![], &vec![], 1);
    assert_eq!(shifts.into_iter().collect::<Vec<_>>(), vec![(0, (0, 3))]);
    // Extra downsample entries without a last pass are ignored.
    let shifts = pass_shifts(&vec![8, 1], &vec![0], 2);
    assert_eq!(shifts.into_iter().collect::<Vec<_>>(), vec![(0, (3, 3)), (1, (0, 3))]);
}

/// Runs the serial loader's decisions over sections in the given order and
/// returns the group kinds parsed, in parse order.
fn serial_groups(order: &[TocGroupKind], encoding: Encoding) -> Vec<TocGroupKind> {
    let mut d: Data = FrameData::new(encoding);
    let mut pending = PendingSections::new();
    let mut parsed = Vec::new();
    for &kind in order {
        let mut queue = vec![kind];
        while let Some(kind) = queue.pop() {
            match d.action_for(kind, false) {
                SectionAction::ParseLfGlobal => {
                    d.lf_global = Some(0);
                    let ready = pending.take_ready(d.lf_global.is_some(), d.hf_global.is_some());
                    queue.extend(ready.into_iter().map(|(k, _)| k).rev());
                },
                SectionAction::ParseHfGlobal => {
                    d.hf_global = Some(None);
                    let ready = pending.take_ready(d.lf_global.is_some(), d.hf_global.is_some());
                    queue.extend(ready.into_iter().map(|(k, _)| k).rev());
                },
                SectionAction::ParseLfGroup(_) | SectionAction::ParsePassGroup { .. } => parsed.push(kind),
                SectionAction::Park => pending.park(kind, Vec::new()),
                other => panic!("unexpected action {:?}", other),
            }
        }
    }
    assert!(pending.entries.is_empty());
    parsed
}

fn parallel_groups(order: &[TocGroupKind]) -> Vec<TocGroupKind> {
    order
        .iter()
        .copied()
        .filter(|&k| matches!(parallel_route(k), ParallelRoute::QueueLfGroup(_) | ParallelRoute::QueuePassGroup { .. }))
        .collect()
}

#[test]
fn serial_and_parallel_read_the_same_groups() {
    // 4x4 groups, 2 passes, one LF group; a scrambled bitstream order.
    let mut order = vec![TocGroupKind::LfGroup(0)];
    for pass_idx in (0..2).rev() {
        for group_idx in 0..16 {
            order.push(TocGroupKind::GroupPass { pass_idx, group_idx: (group_idx * 7) % 16 });
        }
    }
    order.insert(9, TocGroupKind::LfGlobal);
    order.insert(20, TocGroupKind::HfGlobal);
    for encoding in [Encoding::VarDct, Encoding::Modular] {
        let mut serial = serial_groups(&order, encoding);
        let mut parallel = parallel_groups(&order);
        assert_eq!(serial.len(), 33);
        serial.sort();
        parallel.sort();
        assert_eq!(serial, parallel);
    }
}

#[test]
fn two_halves_keep_every_group() {
    // A 1024x512 frame of 256-pixel groups, 4 per row; left and right halves.
    let layout = GroupLayout { lf_group_dim: 2048, lf_groups_per_row: 1, group_dim: 256, groups_per_row: 4 };
    let left = Some((0, 0, 512, 512));
    let right = Some((512, 0, 512, 512));
    for group_idx in 0..8 {
        let kind = TocGroupKind::GroupPass { pass_idx: 0, group_idx };
        assert!(keep_section(left, kind, layout) || keep_section(right, kind, layout));
        // Each half keeps only its own columns.
        let column = group_idx % 4;
        assert_eq!(keep_section(left, kind, layout), column < 2);
        assert_eq!(keep_section(right, kind, layout), column >= 2);
        // The same plan gives the same answer twice.
        assert_eq!(keep_section(left, kind, layout), keep_section(left, kind, layout));
    }
}

#[test]
fn cropped_plan_keeps_order_and_drops_far_groups() {
    let layout = GroupLayout { lf_group_dim: 512, lf_groups_per_row: 2, group_dim: 256, groups_per_row: 4 };
    let kinds = [
        TocGroupKind::LfGroup(1),
        TocGroupKind::GroupPass { pass_idx: 0, group_idx: 3 },
        TocGroupKind::LfGlobal,
        TocGroupKind::LfGroup(0),
        TocGroupKind::HfGlobal,
        TocGroupKind::GroupPass { pass_idx: 0, group_idx: 0 },
        TocGroupKind::GroupPass { pass_idx: 1, group_idx: 5 },
    ];
    let groups: Vec<TocGroup> = kinds
        .iter()
        .enumerate()
        .map(|(i, &kind)| TocGroup { kind, offset: 10 * i as u64, size: 10 })
        .collect();
    let plan = plan_cropped_sections(&groups, Some((0, 0, 300, 300)), layout);
    let planned: Vec<TocGroupKind> = plan.iter().map(|g| g.kind).collect();
    assert_eq!(
        planned,
        vec![
            TocGroupKind::LfGroup(0),
            TocGroupKind::HfGlobal,
            TocGroupKind::GroupPass { pass_idx: 0, group_idx: 0 },
            TocGroupKind::GroupPass { pass_idx: 1, group_idx: 5 },
        ]
    );
    assert_eq!(plan[0].offset, 30);
    let all = plan_cropped_sections(&groups, None, layout);
    assert_eq!(all.len(), 6);
    assert!(all.iter().all(|g| g.kind != TocGroupKind::LfGlobal));
}

/// Writes bits least significant first, as the bit reader takes them.
struct BitWriter {
    bytes: Vec<u8>,
    nbits: usize,
}

impl BitWriter {
    fn new() -> Self {
        BitWriter { bytes: Vec::new(), nbits: 0 }
    }

    fn bits(&mut self, value: u32, n: usize) {
        for k in 0..n {
            if self.nbits % 8 == 0 {
                self.bytes.push(0);
            }
            if (value >> k) & 1 == 1 {
                *self.bytes.last_mut().unwrap() |= 1 << (self.nbits % 8);
            }
            self.nbits += 1;
        }
    }

    /// One integer of the spline code below: a two-bit prefix code over the
    /// tokens 0, 1, 2 and 8, then the token's extra bits.
    fn varint(&mut self, v: u32) {
        let (token, extra) = if v == 0 { (0, 0) } else { (32 - v.leading_zeros(), 31 - v.leading_zeros()) };
        let code = match token {
            0 => [0, 0],
            1 => [0, 1],
            2 => [1, 0],
            8 => [1, 1],
            _ => panic!("no code for token {}", token),
        };
        self.bits(code[0], 1);
        self.bits(code[1], 1);
        if v > 0 {
            self.bits(v - (1 << extra), extra as usize);
        }
    }

    /// The entropy-code header: no LZ77, every context in one cluster, a
    /// prefix code, integers split at 1, and a simple code of four two-bit
    /// symbols 0, 1, 2, 8 over an alphabet of 9.
    fn spline_code_header(&mut self) {
        self.bits(0, 1);
        self.bits(1, 1);
        self.bits(0, 2);
        self.bits(1, 1);
        self.bits(0, 4);
        self.bits(1, 1);
        self.bits(3, 4);
        self.bits(0, 3);
        self.bits(1, 2);
        self.bits(3, 2);
        for sym in [0, 1, 2, 8] {
            self.bits(sym, 4);
        }
        self.bits(0, 1);
    }
}

#[test]
fn parse_two_straight_line_splines() {
    let mut w = BitWriter::new();
    w.spline_code_header();
    w.varint(1); // two splines
    for v in [0, 0, 200, 0] {
        w.varint(v);
    }
    w.varint(0); // quant_adjust
    for _ in 0..2 {
        w.varint(2);
        for v in [2, 0, 2, 0] {
            w.varint(v);
        }
        for _ in 0..128 {
            w.varint(0);
        }
    }
    w.bytes.extend([0u8; 16]);
    let mut bitstream = jxl_bitstream::Bitstream::new(&w.bytes);
    let splines = match Splines::parse(&mut bitstream, 64, 64) {
        Ok(s) => s,
        Err(e) => panic!("parse failed: {:?}", e),
    };
    assert_eq!(splines.quant_adjust, 0);
    assert_eq!(splines.quant_splines.len(), 2);
    assert_eq!(splines.quant_splines[0].start_point, (0, 0));
    assert_eq!(splines.quant_splines[1].start_point, (100, 0));
    for spline in &splines.quant_splines {
        assert_eq!(spline.points_deltas, vec![(1, 0), (1, 0)]);
        assert!(spline.sigma_dct.iter().all(|&v| v == 0));
    }
    let (points, manhattan) = splines.quant_splines[0].control_points().unwrap();
    assert_eq!(points, vec![(0, 0), (1, 0), (3, 0)]);
    assert_eq!(manhattan, 3);
}

#[test]
fn parse_rejects_too_many_splines() {
    let mut w = BitWriter::new();
    w.spline_code_header();
    w.varint(2); // three splines in a 2x4 frame, whose cap is 2
    w.bytes.extend([0u8; 16]);
    let mut bitstream = jxl_bitstream::Bitstream::new(&w.bytes);
    assert!(matches!(Splines::parse(&mut bitstream, 2, 4), Err(FrameError::TooManySplines(3))));
}

#[test]
fn parse_rejects_too_many_points() {
    let mut w = BitWriter::new();
    w.spline_code_header();
    w.varint(0); // one spline
    w.varint(0);
    w.varint(0);
    w.varint(0);
    w.varint(200); // 200 points in a 2x4 frame, whose cap is 4
    w.bytes.extend([0u8; 16]);
    let mut bitstream = jxl_bitstream::Bitstream::new(&w.bytes);
    assert!(matches!(Splines::parse(&mut bitstream, 2, 4), Err(FrameError::TooManySplinePoints(200))));
}

#[test]
fn spline_and_point_caps() {
    assert!(matches!(check_num_splines(1, 8), Ok(2)));
    assert!(matches!(check_num_splines(2, 8), Err(FrameError::TooManySplines(3))));
    assert!(matches!(check_num_splines(u32::MAX, u64::MAX), Err(FrameError::TooManySplines(0x1_0000_0000))));
    assert!(matches!(check_num_splines((1 << 24) - 1, u64::MAX), Ok(0x100_0000)));
    assert!(matches!(check_num_splines(1 << 24, u64::MAX), Err(FrameError::TooManySplines(0x100_0001))));
    assert!(matches!(check_num_points(4, 8), Ok(4)));
    assert!(matches!(check_num_points(5, 8), Err(FrameError::TooManySplinePoints(5))));
    assert!(matches!(check_num_points(1 << 20, u64::MAX), Ok(0x10_0000)));
    assert!(matches!(check_num_points((1 << 20) + 1, u64::MAX), Err(FrameError::TooManySplinePoints(0x10_0001))));
}

#[test]
fn spline_from_raw_values() {
    let mut xyb = [[0u32; 32]; 3];
    xyb[0][0] = 1;
    xyb[2][31] = 6;
    let mut sigma = [0u32; 32];
    sigma[5] = u32::MAX;
    let spline = quant_spline_from_raw((4, -4), &vec![(3, 4), (0, 1)], &xyb, &sigma);
    assert_eq!(spline.start_point, (4, -4));
    assert_eq!(spline.points_deltas, vec![(-2, 2), (0, -1)]);
    assert_eq!(spline.xyb_dct[0][0], -1);
    assert_eq!(spline.xyb_dct[2][31], 3);
    assert_eq!(spline.sigma_dct[5], i32::MIN);
    assert_eq!(spline.sigma_dct[4], 0);
}

#[test]
fn zigzag_decoding() {
    assert_eq!(unpack_signed(0), 0);
    assert_eq!(unpack_signed(1), -1);
    assert_eq!(unpack_signed(2), 1);
    assert_eq!(unpack_signed(200), 100);
    assert_eq!(unpack_signed(u32::MAX - 1), i32::MAX);
    assert_eq!(unpack_signed(u32::MAX), i32::MIN);
    for u in [0u32, 1, 2, 3, 77, 1 << 31, u32::MAX] {
        assert_eq!(unpack_signed(u), jxl_bitstream::unpack_signed(u));
    }
}
