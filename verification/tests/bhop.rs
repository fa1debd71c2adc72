use basic_game::bhop::{
    bhop_attempt, bhop_band_rules, bhop_difficulty_band, bhop_fallback_rng, bhop_is_catch_step,
    bhop_profile_rng, bhop_segment_ordinal, build_bhop_pad_specs, build_bhop_profile,
    build_split_merge_bhop_pads, choose_bhop_pattern, choose_bhop_shape, choose_surf_path_style,
    clamp_platform_count_for_spacing, fallback_bhop_profile, make_bhop_pad, retry_bhop_profile,
    BhopDifficultyBand, BhopPadSlot, BhopPattern, BhopProfile, PathLateralStyle, RISK_ROUTE,
    SAFE_ROUTE, SHARED_ROUTE,
};
use basic_game::rng::RunRng;

fn profile(pattern: BhopPattern, band: BhopDifficultyBand, pad_count: usize) -> BhopProfile {
    let rules = bhop_band_rules(band);
    BhopProfile {
        band,
        pattern,
        pad_count,
        min_pad_count: rules.min_count,
        path_style: PathLateralStyle::Straight,
        catch_interval: rules.catch_interval,
    }
}

fn route_covers_all_steps(pads: &[BhopPadSlot], route_mask: u8, step_count: usize) -> bool {
    (0..step_count).all(|step| {
        pads.iter()
            .any(|pad| pad.step == step && pad.route_mask & route_mask != 0)
    })
}

#[test]
fn ordinal_and_band_follow_the_segment_index() {
    assert_eq!(bhop_segment_ordinal(0), 0);
    assert_eq!(bhop_segment_ordinal(13), 6);
    let bands: Vec<_> = (0..8).map(bhop_difficulty_band).collect();
    assert_eq!(
        bands,
        vec![
            BhopDifficultyBand::Intro,
            BhopDifficultyBand::Intro,
            BhopDifficultyBand::Intro,
            BhopDifficultyBand::Mid,
            BhopDifficultyBand::Mid,
            BhopDifficultyBand::Mid,
            BhopDifficultyBand::Advanced,
            BhopDifficultyBand::Advanced,
        ]
    );
}

#[test]
fn later_bands_have_more_pads_and_rarer_catches() {
    let intro = bhop_band_rules(BhopDifficultyBand::Intro);
    let mid = bhop_band_rules(BhopDifficultyBand::Mid);
    let advanced = bhop_band_rules(BhopDifficultyBand::Advanced);
    assert_eq!((intro.min_count, intro.max_count, intro.catch_interval), (6, 11, 3));
    assert_eq!((mid.min_count, mid.max_count, mid.catch_interval), (7, 13, 4));
    assert_eq!((advanced.min_count, advanced.max_count, advanced.catch_interval), (8, 16, 7));
    assert!(intro.catch_interval < mid.catch_interval);
    assert!(mid.catch_interval < advanced.catch_interval);
}

#[test]
fn intro_band_always_runs_rhythm_without_a_draw() {
    let mut rng = RunRng::new(1234);
    let before = rng.state;
    assert_eq!(choose_bhop_pattern(&mut rng, BhopDifficultyBand::Intro), BhopPattern::Rhythm);
    assert_eq!(rng.state, before);
}

#[test]
fn split_merge_is_chosen_only_in_the_advanced_band() {
    let mut advanced_has_split_merge = false;
    for seed in 0_u64..128 {
        for band in [BhopDifficultyBand::Intro, BhopDifficultyBand::Mid] {
            let mut rng = RunRng::new(seed);
            assert_ne!(choose_bhop_pattern(&mut rng, band), BhopPattern::SplitMerge);
        }
        let mut rng = RunRng::new(seed);
        if choose_bhop_pattern(&mut rng, BhopDifficultyBand::Advanced) == BhopPattern::SplitMerge {
            advanced_has_split_merge = true;
        }
    }
    assert!(advanced_has_split_merge);
}

#[test]
fn shape_choice_matches_known_values_and_is_deterministic() {
    let base = RunRng::new(0xD15C_A11E);
    let mut a = bhop_profile_rng(&base);
    let mut b = bhop_profile_rng(&base);
    let shape_a = choose_bhop_shape(12, &mut a);
    let shape_b = choose_bhop_shape(12, &mut b);
    assert_eq!(shape_a, shape_b);
    assert_eq!(a, b);
    assert_eq!(
        shape_a,
        (BhopDifficultyBand::Advanced, BhopPattern::LaneSwitch, PathLateralStyle::Switchback)
    );
    assert_eq!(a.state, 0x810e_c24d_9ef4_aceb);
}

#[test]
fn surf_style_is_one_of_the_weighted_styles() {
    for seed in 0_u64..64 {
        for intense in [false, true] {
            let mut rng = RunRng::new(seed);
            let style = choose_surf_path_style(&mut rng, intense);
            assert!(matches!(
                style,
                PathLateralStyle::Straight | PathLateralStyle::OneSidedArc | PathLateralStyle::Arc
            ));
        }
    }
}

#[test]
fn platform_count_is_clamped_by_spacing_and_minimum() {
    assert_eq!(clamp_platform_count_for_spacing(12, 20, 6), 12);
    assert_eq!(clamp_platform_count_for_spacing(12, 8, 6), 9);
    assert_eq!(clamp_platform_count_for_spacing(12, 2, 6), 6);
    assert_eq!(clamp_platform_count_for_spacing(4, 20, 6), 6);
    assert_eq!(clamp_platform_count_for_spacing(usize::MAX, usize::MAX, 6), usize::MAX);
}

#[test]
fn profile_pad_count_stays_in_band_and_split_merge_has_eight() {
    let p = build_bhop_profile(
        BhopDifficultyBand::Mid,
        BhopPattern::Rhythm,
        PathLateralStyle::Arc,
        40,
        100,
    );
    assert_eq!(p.pad_count, 13);
    assert_eq!(p.min_pad_count, 7);
    assert_eq!(p.catch_interval, 4);
    let p = build_bhop_profile(
        BhopDifficultyBand::Intro,
        BhopPattern::Rhythm,
        PathLateralStyle::Straight,
        1,
        100,
    );
    assert_eq!(p.pad_count, 6);
    let p = build_bhop_profile(
        BhopDifficultyBand::Advanced,
        BhopPattern::SplitMerge,
        PathLateralStyle::Straight,
        9,
        3,
    );
    assert_eq!(p.pad_count, 8);
    let p = build_bhop_profile(
        BhopDifficultyBand::Advanced,
        BhopPattern::Rhythm,
        PathLateralStyle::Straight,
        12,
        9,
    );
    assert_eq!(p.pad_count, 10);
}

#[test]
fn retries_shed_pads_then_leave_split_merge() {
    let mut base = profile(BhopPattern::SplitMerge, BhopDifficultyBand::Advanced, 12);
    base.path_style = PathLateralStyle::Arc;
    assert_eq!(retry_bhop_profile(base, 0), base);
    assert_eq!(retry_bhop_profile(base, 1), base);
    assert_eq!(retry_bhop_profile(base, 2).pad_count, 11);
    assert_eq!(retry_bhop_profile(base, 4).pad_count, 9);
    let fifth = retry_bhop_profile(base, 5);
    assert_eq!(fifth.pad_count, 8);
    assert_eq!(fifth.pattern, BhopPattern::LaneSwitch);
    assert_eq!(fifth.path_style, PathLateralStyle::Serpentine);
    assert_eq!(retry_bhop_profile(base, 7).pad_count, 8);

    let mut rhythm = profile(BhopPattern::Rhythm, BhopDifficultyBand::Mid, 9);
    rhythm.path_style = PathLateralStyle::Switchback;
    let late = retry_bhop_profile(rhythm, 7);
    assert_eq!(late.pattern, BhopPattern::Rhythm);
    assert_eq!(late.path_style, PathLateralStyle::Switchback);
    assert_eq!(late.pad_count, 7);
}

#[test]
fn fallback_is_a_minimal_lane_switch() {
    let mut base = profile(BhopPattern::SplitMerge, BhopDifficultyBand::Advanced, 14);
    base.path_style = PathLateralStyle::OneSidedArc;
    let fallback = fallback_bhop_profile(base);
    assert_eq!(fallback.pattern, BhopPattern::LaneSwitch);
    assert_eq!(fallback.path_style, PathLateralStyle::Serpentine);
    assert_eq!(fallback.pad_count, 8);
    assert_eq!(fallback.band, base.band);
    base.path_style = PathLateralStyle::Straight;
    assert_eq!(fallback_bhop_profile(base).path_style, PathLateralStyle::Straight);
}

#[test]
fn attempt_and_fallback_streams_are_forked_by_salt() {
    let base = RunRng::new(77);
    let base_profile = profile(BhopPattern::Rhythm, BhopDifficultyBand::Intro, 9);
    let (attempt_profile, attempt_rng) = bhop_attempt(base_profile, &base, 3);
    assert_eq!(attempt_profile, retry_bhop_profile(base_profile, 3));
    assert_eq!(attempt_rng, base.fork(0xA11E_0003));
    assert_eq!(bhop_fallback_rng(&base, 6), base.fork(0xFA11_BACC + 6));
    assert_eq!(bhop_profile_rng(&base), base.fork(0xB105_F11E));
}

#[test]
fn catch_steps_are_the_ends_and_every_interval() {
    let p = profile(BhopPattern::Rhythm, BhopDifficultyBand::Intro, 8);
    let catches: Vec<bool> = (0..8).map(|step| bhop_is_catch_step(&p, step)).collect();
    assert_eq!(catches, vec![true, false, false, true, false, false, true, true]);
}

#[test]
fn make_bhop_pad_marks_accents_and_takes_two_samples() {
    let mut rng = RunRng::new(42);
    let pad = make_bhop_pad(&mut rng, 3, SAFE_ROUTE, false);
    assert!(pad.accent);
    assert_eq!((pad.side_sample, pad.height_sample), (2_682_851, 4_674_151));
    let pad = make_bhop_pad(&mut rng, 3, SAFE_ROUTE, true);
    assert!(!pad.accent);
    let pad = make_bhop_pad(&mut rng, 4, SAFE_ROUTE, false);
    assert!(!pad.accent);
}

#[test]
fn split_merge_pads_match_known_layout() {
    let p = profile(BhopPattern::SplitMerge, BhopDifficultyBand::Advanced, 8);
    let mut rng = RunRng::new(5);
    let pads = build_split_merge_bhop_pads(&p, &mut rng);
    let roles: Vec<(usize, u8, bool, bool)> = pads
        .iter()
        .map(|pad| (pad.step, pad.route_mask, pad.catch, pad.accent))
        .collect();
    assert_eq!(
        roles,
        vec![
            (0, SHARED_ROUTE, true, false),
            (1, SHARED_ROUTE, true, false),
            (2, SAFE_ROUTE, false, false),
            (2, RISK_ROUTE, false, false),
            (3, SAFE_ROUTE, false, true),
            (3, RISK_ROUTE, false, true),
            (4, SAFE_ROUTE, false, false),
            (4, RISK_ROUTE, false, false),
            (5, SAFE_ROUTE, false, false),
            (5, RISK_ROUTE, false, false),
            (6, SHARED_ROUTE, true, false),
            (7, SHARED_ROUTE, true, false),
        ]
    );
    assert_eq!((pads[0].side_sample, pads[0].height_sample), (9_354_103, 14_805_915));
    assert_eq!((pads[11].side_sample, pads[11].height_sample), (11_136_495, 14_089_565));
}

#[test]
fn bhop_patterns_emit_complete_routes_and_boundary_catches() {
    for (pattern, band) in [
        (BhopPattern::Rhythm, BhopDifficultyBand::Intro),
        (BhopPattern::LaneSwitch, BhopDifficultyBand::Mid),
        (BhopPattern::DropStrafe, BhopDifficultyBand::Mid),
        (BhopPattern::SplitMerge, BhopDifficultyBand::Advanced),
    ] {
        for pad_count in 1..=16 {
            let p = profile(pattern, band, pad_count);
            let mut rng = RunRng::new(0xABCD_EF01);
            let pads = build_bhop_pad_specs(&p, &mut rng);
            assert!(route_covers_all_steps(&pads, SAFE_ROUTE, pad_count));
            assert!(pads.iter().any(|pad| pad.step == 0 && pad.catch));
            assert!(pads.iter().any(|pad| pad.step + 1 == pad_count && pad.catch));
            assert!(pads.iter().all(|pad| pad.step < pad_count));
            if pattern == BhopPattern::SplitMerge {
                assert!(route_covers_all_steps(&pads, RISK_ROUTE, pad_count));
            }
        }
    }
}

#[test]
fn drop_strafe_catches_the_first_two_and_last_two_steps() {
    let p = profile(BhopPattern::DropStrafe, BhopDifficultyBand::Advanced, 10);
    let mut rng = RunRng::new(8);
    let pads = build_bhop_pad_specs(&p, &mut rng);
    let catches: Vec<bool> = pads.iter().map(|pad| pad.catch).collect();
    assert_eq!(
        catches,
        vec![true, true, false, false, false, false, false, true, true, true]
    );
}

#[test]
fn pad_building_draws_two_samples_per_pad() {
    let p = profile(BhopPattern::Rhythm, BhopDifficultyBand::Intro, 7);
    let mut rng = RunRng::new(31);
    let mut replay = rng;
    let pads = build_bhop_pad_specs(&p, &mut rng);
    for pad in &pads {
        assert_eq!(pad.side_sample, replay.next_unit_sample());
        assert_eq!(pad.height_sample, replay.next_unit_sample());
    }
    assert_eq!(rng, replay);
}
