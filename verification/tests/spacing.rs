use basic_game::bhop::{
    bhop_band_rules, build_bhop_pad_specs, BhopDifficultyBand, BhopPadSlot, BhopPattern,
    BhopProfile, PathLateralStyle, RISK_ROUTE, SAFE_ROUTE, SHARED_ROUTE,
};
use basic_game::rng::RunRng;
use basic_game::spacing::{
    bhop_route_masks, bhop_spacing_checks, route_pad_index_for_step, split_merge_pair,
    BhopSpacingCheck, BhopSpacingIssueKind,
};

fn slot(step: usize, route_mask: u8) -> BhopPadSlot {
    BhopPadSlot {
        step,
        route_mask,
        catch: false,
        accent: false,
        side_sample: 0,
        height_sample: 0,
    }
}

fn check(
    kind: BhopSpacingIssueKind,
    left: usize,
    right: usize,
    earlier_step: usize,
    later_step: usize,
) -> BhopSpacingCheck {
    BhopSpacingCheck {
        kind,
        left,
        right,
        earlier_step,
        later_step,
    }
}

fn split_merge_profile() -> BhopProfile {
    let rules = bhop_band_rules(BhopDifficultyBand::Advanced);
    BhopProfile {
        band: BhopDifficultyBand::Advanced,
        pattern: BhopPattern::SplitMerge,
        pad_count: 8,
        min_pad_count: rules.min_count,
        path_style: PathLateralStyle::Straight,
        catch_interval: rules.catch_interval,
    }
}

#[test]
fn route_masks_per_pattern() {
    assert_eq!(bhop_route_masks(BhopPattern::Rhythm), vec![SAFE_ROUTE]);
    assert_eq!(bhop_route_masks(BhopPattern::DropStrafe), vec![SAFE_ROUTE]);
    assert_eq!(bhop_route_masks(BhopPattern::SplitMerge), vec![SAFE_ROUTE, RISK_ROUTE]);
}

#[test]
fn route_pad_index_finds_the_first_pad_on_the_route() {
    let pads = vec![slot(0, SHARED_ROUTE), slot(1, RISK_ROUTE), slot(1, SAFE_ROUTE), slot(1, SHARED_ROUTE)];
    assert_eq!(route_pad_index_for_step(&pads, 0, SAFE_ROUTE), Some(0));
    assert_eq!(route_pad_index_for_step(&pads, 1, SAFE_ROUTE), Some(2));
    assert_eq!(route_pad_index_for_step(&pads, 1, RISK_ROUTE), Some(1));
    assert_eq!(route_pad_index_for_step(&pads, 2, SAFE_ROUTE), None);
}

#[test]
fn single_lane_checks_consecutive_steps_and_distant_pads() {
    let pads = vec![slot(0, SAFE_ROUTE), slot(1, SAFE_ROUTE), slot(2, SAFE_ROUTE)];
    assert_eq!(
        bhop_spacing_checks(BhopPattern::Rhythm, 3, &pads),
        vec![
            check(BhopSpacingIssueKind::RouteGap, 0, 1, 0, 1),
            check(BhopSpacingIssueKind::RouteGap, 1, 2, 1, 2),
            check(BhopSpacingIssueKind::Overlap, 0, 2, 0, 2),
        ]
    );
}

#[test]
fn split_merge_checks_match_known_list() {
    let profile = split_merge_profile();
    let mut rng = RunRng::new(5);
    let pads = build_bhop_pad_specs(&profile, &mut rng);
    let checks = bhop_spacing_checks(profile.pattern, profile.pad_count, &pads);
    assert_eq!(checks.len(), 68);
    let routes: Vec<_> = checks
        .iter()
        .filter(|c| c.kind == BhopSpacingIssueKind::RouteGap)
        .map(|c| (c.left, c.right, c.earlier_step, c.later_step))
        .collect();
    assert_eq!(
        routes,
        vec![
            (0, 1, 0, 1),
            (1, 2, 1, 2),
            (2, 4, 2, 3),
            (4, 6, 3, 4),
            (6, 8, 4, 5),
            (8, 10, 5, 6),
            (10, 11, 6, 7),
            (0, 1, 0, 1),
            (1, 3, 1, 2),
            (3, 5, 2, 3),
            (5, 7, 3, 4),
            (7, 9, 4, 5),
            (9, 10, 5, 6),
            (10, 11, 6, 7),
        ]
    );
    let branches: Vec<_> = checks
        .iter()
        .filter(|c| c.kind == BhopSpacingIssueKind::BranchGap)
        .map(|c| (c.left, c.right, c.earlier_step))
        .collect();
    assert_eq!(branches, vec![(2, 3, 2), (4, 5, 3), (6, 7, 4), (8, 9, 5)]);
    assert_eq!(checks[18], check(BhopSpacingIssueKind::Overlap, 0, 2, 0, 2));
    assert_eq!(checks[45], check(BhopSpacingIssueKind::Overlap, 3, 7, 2, 4));
    assert_eq!(checks[67], check(BhopSpacingIssueKind::Overlap, 9, 11, 5, 7));
}

#[test]
fn overlap_checks_skip_branch_pairs_and_adjacent_shared_routes() {
    let profile = split_merge_profile();
    let mut rng = RunRng::new(5);
    let pads = build_bhop_pad_specs(&profile, &mut rng);
    for c in bhop_spacing_checks(profile.pattern, profile.pad_count, &pads) {
        assert!(c.left < c.right);
        assert!(c.earlier_step <= c.later_step);
        if c.kind == BhopSpacingIssueKind::Overlap {
            let (l, r) = (pads[c.left], pads[c.right]);
            assert_ne!(l.step, r.step);
            assert!(l.step.abs_diff(r.step) != 1 || l.route_mask & r.route_mask == 0);
        }
    }
}

#[test]
fn split_merge_pair_finds_safe_and_risky_pads() {
    let pads = vec![slot(0, SHARED_ROUTE), slot(1, RISK_ROUTE), slot(1, SAFE_ROUTE), slot(2, SAFE_ROUTE)];
    assert_eq!(split_merge_pair(&pads, 1), Some((2, 1)));
    assert_eq!(split_merge_pair(&pads, 0), None);
    assert_eq!(split_merge_pair(&pads, 2), None);
    let pads = vec![slot(4, SAFE_ROUTE), slot(4, SHARED_ROUTE)];
    assert_eq!(split_merge_pair(&pads, 4), None);
}
