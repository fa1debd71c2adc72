//! Square bunny-hop sections: the difficulty bands, the choice of pattern and
//! lateral path style, the pad count of a profile, the retries and fallback of
//! a profile that does not fit, and the pad slots of each pattern.
//!
//! A pad slot holds what decides a pad's role: its step along the route, the
//! routes it belongs to, whether it is a catch pad, whether it is an accent
//! pad, and the two unit samples from which its side length and its height are
//! scaled. Scaling the samples and placing the pads in the world is
//! floating-point work done by the caller.

use vstd::prelude::*;

use crate::rng::{
    advance, draw, lemma_advance_add, lemma_unit_sample_shift, lemma_weighted_pick_has_weight,
    unit_sample, weight_total, weighted_pick, RunRng,
};

verus! {

/// Route bit of the safe lane; every pattern has a pad on it at every step.
pub const SAFE_ROUTE: u8 = 0b01;

/// Route bit of the risky lane of a split-merge section.
pub const RISK_ROUTE: u8 = 0b10;

/// Route bits of a pad shared by both lanes.
pub const SHARED_ROUTE: u8 = 0b11;

/// Salt of the stream from which a section's profile is drawn.
pub const BHOP_PROFILE_SALT: u64 = 0xB105_F11E;

/// Base salt of the stream of each placement attempt.
pub const BHOP_ATTEMPT_SALT: u64 = 0xA11E_0000;

/// Base salt of the stream of each fallback placement.
pub const BHOP_FALLBACK_SALT: u64 = 0xFA11_BACC;

/// Placement attempts before a section falls back to a plain lane switch.
pub const BHOP_MAX_BUILD_ATTEMPTS: usize = 8;

/// The least pad count of a split-merge section.
pub const SPLIT_MERGE_MIN_PADS: usize = 8;

#[derive(Clone, Copy, Debug, PartialEq, Eq, Hash, Structural)]
pub enum PathLateralStyle {
    Straight,
    Serpentine,
    Switchback,
    Arc,
    OneSidedArc,
}

#[derive(Clone, Copy, Debug, PartialEq, Eq, Hash, Structural)]
pub enum BhopPattern {
    Rhythm,
    LaneSwitch,
    DropStrafe,
    SplitMerge,
}

#[derive(Clone, Copy, Debug, PartialEq, Eq, PartialOrd, Ord, Structural)]
pub enum BhopDifficultyBand {
    Intro,
    Mid,
    Advanced,
}

/// The integer rules of a difficulty band.
#[derive(Clone, Copy, Debug, PartialEq, Eq, Structural)]
pub struct BhopBandRules {
    pub min_count: usize,
    pub max_count: usize,
    pub catch_interval: usize,
}

/// The integer part of a bunny-hop profile.
#[derive(Clone, Copy, Debug, PartialEq, Eq, Structural)]
pub struct BhopProfile {
    pub band: BhopDifficultyBand,
    pub pattern: BhopPattern,
    pub pad_count: usize,
    pub min_pad_count: usize,
    pub path_style: PathLateralStyle,
    pub catch_interval: usize,
}

/// One pad of a section, before it is scaled and placed.
#[derive(Clone, Copy, Debug, PartialEq, Eq, Structural)]
pub struct BhopPadSlot {
    pub step: usize,
    pub route_mask: u8,
    pub catch: bool,
    pub accent: bool,
    pub side_sample: u32,
    pub height_sample: u32,
}

pub open spec fn spec_difficulty_band(ordinal: usize) -> BhopDifficultyBand {
    if ordinal <= 2 {
        BhopDifficultyBand::Intro
    } else if ordinal <= 5 {
        BhopDifficultyBand::Mid
    } else {
        BhopDifficultyBand::Advanced
    }
}

pub open spec fn spec_band_rules(band: BhopDifficultyBand) -> BhopBandRules {
    match band {
        BhopDifficultyBand::Intro => BhopBandRules { min_count: 6, max_count: 11, catch_interval: 3 },
        BhopDifficultyBand::Mid => BhopBandRules { min_count: 7, max_count: 13, catch_interval: 4 },
        BhopDifficultyBand::Advanced => BhopBandRules {
            min_count: 8,
            max_count: 16,
            catch_interval: 7,
        },
    }
}

pub open spec fn mid_pattern_weights() -> Seq<(BhopPattern, u32)> {
    seq![(BhopPattern::Rhythm, 4u32), (BhopPattern::LaneSwitch, 3u32), (BhopPattern::DropStrafe, 2u32)]
}

pub open spec fn advanced_pattern_weights() -> Seq<(BhopPattern, u32)> {
    seq![
        (BhopPattern::Rhythm, 2u32),
        (BhopPattern::LaneSwitch, 3u32),
        (BhopPattern::DropStrafe, 2u32),
        (BhopPattern::SplitMerge, 3u32),
    ]
}

/// The draws that choosing a pattern takes: none in the intro band.
pub open spec fn pattern_draws(band: BhopDifficultyBand) -> nat {
    match band {
        BhopDifficultyBand::Intro => 0,
        _ => 1,
    }
}

/// The pattern chosen for a band from generator state `state`.
pub open spec fn spec_choose_bhop_pattern(band: BhopDifficultyBand, state: u64) -> BhopPattern {
    match band {
        BhopDifficultyBand::Intro => BhopPattern::Rhythm,
        BhopDifficultyBand::Mid => weighted_pick(mid_pattern_weights(), (draw(state, 0) % 9) as int),
        BhopDifficultyBand::Advanced => weighted_pick(
            advanced_pattern_weights(),
            (draw(state, 0) % 10) as int,
        ),
    }
}

/// The weighted path styles among which a section of a pattern and band picks.
pub open spec fn style_weights(band: BhopDifficultyBand, pattern: BhopPattern) -> Seq<
    (PathLateralStyle, u32),
> {
    match pattern {
        BhopPattern::Rhythm => match band {
            BhopDifficultyBand::Intro => seq![
                (PathLateralStyle::Straight, 6u32),
                (PathLateralStyle::Arc, 3u32),
            ],
            BhopDifficultyBand::Mid => seq![
                (PathLateralStyle::Straight, 2u32),
                (PathLateralStyle::Serpentine, 4u32),
                (PathLateralStyle::Arc, 3u32),
            ],
            BhopDifficultyBand::Advanced => seq![
                (PathLateralStyle::Serpentine, 4u32),
                (PathLateralStyle::Switchback, 3u32),
                (PathLateralStyle::Arc, 3u32),
            ],
        },
        BhopPattern::LaneSwitch => seq![
            (PathLateralStyle::Straight, 2u32),
            (PathLateralStyle::Serpentine, 4u32),
            (PathLateralStyle::Switchback, 4u32),
        ],
        BhopPattern::DropStrafe => seq![
            (PathLateralStyle::Straight, 3u32),
            (PathLateralStyle::Arc, 4u32),
            (PathLateralStyle::Serpentine, 2u32),
        ],
        BhopPattern::SplitMerge => seq![
            (PathLateralStyle::Straight, 4u32),
            (PathLateralStyle::Arc, 4u32),
            (PathLateralStyle::Serpentine, 1u32),
        ],
    }
}

/// The weighted path styles of a surf section.
pub open spec fn surf_style_weights(intense: bool) -> Seq<(PathLateralStyle, u32)> {
    seq![
        (PathLateralStyle::Straight, if intense { 1u32 } else { 2u32 }),
        (PathLateralStyle::OneSidedArc, if intense { 8u32 } else { 7u32 }),
        (PathLateralStyle::Arc, 4u32),
    ]
}

/// The pick of a weighted list by the next output word of state `state`.
pub open spec fn pick_from<T>(weights: Seq<(T, u32)>, state: u64) -> T {
    weighted_pick(weights, (draw(state, 0) % (weight_total(weights) as u64)) as int)
}

pub fn bhop_segment_ordinal(segment_index: usize) -> (ordinal: usize)
    ensures
        ordinal == segment_index / 2,
{
    segment_index / 2
}

pub fn bhop_difficulty_band(ordinal: usize) -> (band: BhopDifficultyBand)
    ensures
        band == spec_difficulty_band(ordinal),
{
    if ordinal <= 2 {
        BhopDifficultyBand::Intro
    } else if ordinal <= 5 {
        BhopDifficultyBand::Mid
    } else {
        BhopDifficultyBand::Advanced
    }
}

/// Pad counts and catch interval of a band: later bands have more pads and
/// fewer catch pads.
pub fn bhop_band_rules(band: BhopDifficultyBand) -> (rules: BhopBandRules)
    ensures
        rules == spec_band_rules(band),
{
    match band {
        BhopDifficultyBand::Intro => BhopBandRules { min_count: 6, max_count: 11, catch_interval: 3 },
        BhopDifficultyBand::Mid => BhopBandRules { min_count: 7, max_count: 13, catch_interval: 4 },
        BhopDifficultyBand::Advanced => BhopBandRules {
            min_count: 8,
            max_count: 16,
            catch_interval: 7,
        },
    }
}

pub fn choose_bhop_pattern(rng: &mut RunRng, band: BhopDifficultyBand) -> (pattern: BhopPattern)
    ensures
        pattern == spec_choose_bhop_pattern(band, old(rng).state),
        final(rng).state == advance(old(rng).state, pattern_draws(band)),
{
    proof {
        reveal_with_fuel(weight_total, 5);
    }
    match band {
        BhopDifficultyBand::Intro => {
            assert(advance(rng.state, 0) == rng.state);
            BhopPattern::Rhythm
        },
        BhopDifficultyBand::Mid => {
            let weights = [
                (BhopPattern::Rhythm, 4u32),
                (BhopPattern::LaneSwitch, 3u32),
                (BhopPattern::DropStrafe, 2u32),
            ];
            assert(weights@ =~= mid_pattern_weights());
            rng.weighted_choice(&weights)
        },
        BhopDifficultyBand::Advanced => {
            let weights = [
                (BhopPattern::Rhythm, 2u32),
                (BhopPattern::LaneSwitch, 3u32),
                (BhopPattern::DropStrafe, 2u32),
                (BhopPattern::SplitMerge, 3u32),
            ];
            assert(weights@ =~= advanced_pattern_weights());
            rng.weighted_choice(&weights)
        },
    }
}

pub fn choose_bhop_path_style(
    rng: &mut RunRng,
    band: BhopDifficultyBand,
    pattern: BhopPattern,
) -> (style: PathLateralStyle)
    ensures
        style == pick_from(style_weights(band, pattern), old(rng).state),
        final(rng).state == advance(old(rng).state, 1),
{
    proof {
        reveal_with_fuel(weight_total, 5);
    }
    match pattern {
        BhopPattern::Rhythm => match band {
            BhopDifficultyBand::Intro => {
                let weights = [(PathLateralStyle::Straight, 6u32), (PathLateralStyle::Arc, 3u32)];
                assert(weights@ =~= style_weights(band, pattern));
                rng.weighted_choice(&weights)
            },
            BhopDifficultyBand::Mid => {
                let weights = [
                    (PathLateralStyle::Straight, 2u32),
                    (PathLateralStyle::Serpentine, 4u32),
                    (PathLateralStyle::Arc, 3u32),
                ];
                assert(weights@ =~= style_weights(band, pattern));
                rng.weighted_choice(&weights)
            },
            BhopDifficultyBand::Advanced => {
                let weights = [
                    (PathLateralStyle::Serpentine, 4u32),
                    (PathLateralStyle::Switchback, 3u32),
                    (PathLateralStyle::Arc, 3u32),
                ];
                assert(weights@ =~= style_weights(band, pattern));
                rng.weighted_choice(&weights)
            },
        },
        BhopPattern::LaneSwitch => {
            let weights = [
                (PathLateralStyle::Straight, 2u32),
                (PathLateralStyle::Serpentine, 4u32),
                (PathLateralStyle::Switchback, 4u32),
            ];
            assert(weights@ =~= style_weights(band, pattern));
            rng.weighted_choice(&weights)
        },
        BhopPattern::DropStrafe => {
            let weights = [
                (PathLateralStyle::Straight, 3u32),
                (PathLateralStyle::Arc, 4u32),
                (PathLateralStyle::Serpentine, 2u32),
            ];
            assert(weights@ =~= style_weights(band, pattern));
            rng.weighted_choice(&weights)
        },
        BhopPattern::SplitMerge => {
            let weights = [
                (PathLateralStyle::Straight, 4u32),
                (PathLateralStyle::Arc, 4u32),
                (PathLateralStyle::Serpentine, 1u32),
            ];
            assert(weights@ =~= style_weights(band, pattern));
            rng.weighted_choice(&weights)
        },
    }
}

pub fn choose_surf_path_style(rng: &mut RunRng, intense: bool) -> (style: PathLateralStyle)
    ensures
        style == pick_from(surf_style_weights(intense), old(rng).state),
        final(rng).state == advance(old(rng).state, 1),
{
    proof {
        reveal_with_fuel(weight_total, 5);
    }
    let weights = [
        (PathLateralStyle::Straight, if intense { 1u32 } else { 2u32 }),
        (PathLateralStyle::OneSidedArc, if intense { 8u32 } else { 7u32 }),
        (PathLateralStyle::Arc, 4u32),
    ];
    assert(weights@ =~= surf_style_weights(intense));
    rng.weighted_choice(&weights)
}

/// The band, pattern and path style of the bunny-hop section with index
/// `segment_index`, drawn in that order.
pub fn choose_bhop_shape(segment_index: usize, rng: &mut RunRng) -> (shape: (
    BhopDifficultyBand,
    BhopPattern,
    PathLateralStyle,
))
    ensures
        shape.0 == spec_difficulty_band(segment_index / 2),
        shape.1 == spec_choose_bhop_pattern(shape.0, old(rng).state),
        shape.2 == pick_from(
            style_weights(shape.0, shape.1),
            advance(old(rng).state, pattern_draws(shape.0)),
        ),
        final(rng).state == advance(old(rng).state, pattern_draws(shape.0) + 1),
{
    let ordinal = bhop_segment_ordinal(segment_index);
    let band = bhop_difficulty_band(ordinal);
    let pattern = choose_bhop_pattern(rng, band);
    let style = choose_bhop_path_style(rng, band, pattern);
    proof {
        lemma_advance_add(old(rng).state, pattern_draws(band), 1);
    }
    (band, pattern, style)
}

pub open spec fn spec_max(a: int, b: int) -> int {
    if a >= b {
        a
    } else {
        b
    }
}

pub open spec fn spec_min(a: int, b: int) -> int {
    if a <= b {
        a
    } else {
        b
    }
}

/// At most one pad per spacing step beyond the first, but never fewer than
/// `minimum_count`.
pub open spec fn spec_clamp_platform_count(
    requested_count: usize,
    spacing_steps: usize,
    minimum_count: usize,
) -> int {
    let max_by_spacing = spec_min(spacing_steps + 1, usize::MAX as int);
    spec_max(spec_min(requested_count as int, spec_max(max_by_spacing, minimum_count as int)), minimum_count as int)
}

/// The pad count of a section: the request clamped to the band's range, then
/// to what the spacing allows, and at least eight for a split-merge section.
pub open spec fn spec_bhop_pad_count(
    band: BhopDifficultyBand,
    pattern: BhopPattern,
    rounded_request: usize,
    spacing_steps: usize,
) -> int {
    let rules = spec_band_rules(band);
    let requested = spec_max(
        rules.min_count as int,
        spec_min(rounded_request as int, rules.max_count as int),
    );
    let count = spec_clamp_platform_count(requested as usize, spacing_steps, rules.min_count);
    if pattern == BhopPattern::SplitMerge {
        spec_max(count, SPLIT_MERGE_MIN_PADS as int)
    } else {
        count
    }
}

/// Clamps a requested pad count by the spacing: `spacing_steps` is the number
/// of whole minimum spacings that fit in the section.
pub fn clamp_platform_count_for_spacing(
    requested_count: usize,
    spacing_steps: usize,
    minimum_count: usize,
) -> (count: usize)
    ensures
        count == spec_clamp_platform_count(requested_count, spacing_steps, minimum_count),
        count >= minimum_count,
        count <= requested_count || count == minimum_count,
{
    let max_by_spacing = spacing_steps.saturating_add(1);
    let limit = if max_by_spacing >= minimum_count {
        max_by_spacing
    } else {
        minimum_count
    };
    let capped = if requested_count <= limit {
        requested_count
    } else {
        limit
    };
    if capped >= minimum_count {
        capped
    } else {
        minimum_count
    }
}

/// The integer part of a section's profile, from its band, pattern and path
/// style, the rounded pad request and the number of spacing steps.
pub fn build_bhop_profile(
    band: BhopDifficultyBand,
    pattern: BhopPattern,
    path_style: PathLateralStyle,
    rounded_request: usize,
    spacing_steps: usize,
) -> (profile: BhopProfile)
    ensures
        profile.band == band,
        profile.pattern == pattern,
        profile.path_style == path_style,
        profile.pad_count == spec_bhop_pad_count(band, pattern, rounded_request, spacing_steps),
        profile.min_pad_count == spec_band_rules(band).min_count,
        profile.catch_interval == spec_band_rules(band).catch_interval,
        spec_band_rules(band).min_count <= profile.pad_count <= spec_band_rules(band).max_count,
{
    let rules = bhop_band_rules(band);
    let requested = if rounded_request < rules.min_count {
        rules.min_count
    } else if rounded_request > rules.max_count {
        rules.max_count
    } else {
        rounded_request
    };
    let mut pad_count = clamp_platform_count_for_spacing(requested, spacing_steps, rules.min_count);
    if pattern == BhopPattern::SplitMerge && pad_count < SPLIT_MERGE_MIN_PADS {
        pad_count = SPLIT_MERGE_MIN_PADS;
    }
    BhopProfile {
        band,
        pattern,
        pad_count,
        min_pad_count: rules.min_count,
        path_style,
        catch_interval: rules.catch_interval,
    }
}

/// A style that a lane-switch section can take: a curved style falls back to a
/// serpentine.
pub open spec fn spec_lane_switch_style(style: PathLateralStyle) -> PathLateralStyle {
    match style {
        PathLateralStyle::Straight | PathLateralStyle::Serpentine | PathLateralStyle::Switchback => style,
        _ => PathLateralStyle::Serpentine,
    }
}

pub open spec fn spec_saturating_sub(a: usize, b: usize) -> usize {
    if a >= b {
        (a - b) as usize
    } else {
        0
    }
}

/// The profile of retry `retry`: from the second retry on, one pad fewer per
/// retry down to the band's minimum; from the fifth, a split-merge section
/// becomes a lane switch.
pub open spec fn spec_retry_bhop_profile(base: BhopProfile, retry: usize) -> BhopProfile {
    let max_reduction = spec_saturating_sub(base.pad_count, base.min_pad_count);
    let reduction = spec_min(spec_saturating_sub(retry, 1) as int, max_reduction as int);
    let pad_count = spec_max(
        spec_saturating_sub(base.pad_count, reduction as usize) as int,
        base.min_pad_count as int,
    ) as usize;
    if retry >= 5 && base.pattern == BhopPattern::SplitMerge {
        BhopProfile {
            pad_count,
            pattern: BhopPattern::LaneSwitch,
            path_style: spec_lane_switch_style(base.path_style),
            ..base
        }
    } else {
        BhopProfile { pad_count, ..base }
    }
}

fn lane_switch_style(style: PathLateralStyle) -> (safe: PathLateralStyle)
    ensures
        safe == spec_lane_switch_style(style),
{
    match style {
        PathLateralStyle::Straight | PathLateralStyle::Serpentine | PathLateralStyle::Switchback => style,
        _ => PathLateralStyle::Serpentine,
    }
}

pub fn retry_bhop_profile(base: BhopProfile, retry: usize) -> (profile: BhopProfile)
    ensures
        profile == spec_retry_bhop_profile(base, retry),
{
    let mut profile = base;
    let max_reduction = base.pad_count.saturating_sub(base.min_pad_count);
    let wanted = retry.saturating_sub(1);
    let reduction = if wanted <= max_reduction {
        wanted
    } else {
        max_reduction
    };
    let reduced = base.pad_count.saturating_sub(reduction);
    profile.pad_count = if reduced >= base.min_pad_count {
        reduced
    } else {
        base.min_pad_count
    };
    if retry >= 5 && base.pattern == BhopPattern::SplitMerge {
        profile.pattern = BhopPattern::LaneSwitch;
        profile.path_style = lane_switch_style(base.path_style);
    }
    profile
}

/// The profile used when every retry failed: a lane switch at the band's
/// least pad count, on a style that a lane switch can take.
pub fn fallback_bhop_profile(base: BhopProfile) -> (profile: BhopProfile)
    ensures
        profile == (BhopProfile {
            pattern: BhopPattern::LaneSwitch,
            path_style: spec_lane_switch_style(base.path_style),
            pad_count: base.min_pad_count,
            ..base
        }),
{
    let mut profile = base;
    profile.pattern = BhopPattern::LaneSwitch;
    profile.path_style = lane_switch_style(profile.path_style);
    profile.pad_count = profile.min_pad_count;
    profile
}

/// The stream from which a section's profile is drawn, forked from the
/// section's stream, which stays as it was.
pub fn bhop_profile_rng(base: &RunRng) -> (rng: RunRng)
    ensures
        rng == base.fork_spec(BHOP_PROFILE_SALT),
{
    base.fork(BHOP_PROFILE_SALT)
}

/// The profile and the stream of placement attempt `retry`.
pub fn bhop_attempt(base_profile: BhopProfile, base: &RunRng, retry: usize) -> (attempt: (
    BhopProfile,
    RunRng,
))
    ensures
        attempt.0 == spec_retry_bhop_profile(base_profile, retry),
        attempt.1 == base.fork_spec(BHOP_ATTEMPT_SALT.wrapping_add(retry as u64)),
{
    (retry_bhop_profile(base_profile, retry), base.fork(BHOP_ATTEMPT_SALT.wrapping_add(retry as u64)))
}

/// The stream of the fallback placement with `pad_count` pads.
pub fn bhop_fallback_rng(base: &RunRng, pad_count: usize) -> (rng: RunRng)
    ensures
        rng == base.fork_spec(BHOP_FALLBACK_SALT.wrapping_add(pad_count as u64)),
{
    base.fork(BHOP_FALLBACK_SALT.wrapping_add(pad_count as u64))
}

/// Law: a retry never raises the pad count, never goes below the band's
/// minimum, never introduces a split-merge section, and from the fifth retry
/// on never keeps one.
pub proof fn lemma_retry_bounds(base: BhopProfile, retry: usize)
    requires
        base.min_pad_count <= base.pad_count,
    ensures
        base.min_pad_count <= spec_retry_bhop_profile(base, retry).pad_count <= base.pad_count,
        spec_retry_bhop_profile(base, retry).pattern == BhopPattern::SplitMerge ==> base.pattern
            == BhopPattern::SplitMerge,
        retry >= 5 ==> spec_retry_bhop_profile(base, retry).pattern != BhopPattern::SplitMerge,
        retry <= 1 ==> spec_retry_bhop_profile(base, retry) == base,
{
}

/// Law: later retries never have more pads than earlier ones.
pub proof fn lemma_retry_monotone(base: BhopProfile, a: usize, b: usize)
    requires
        base.min_pad_count <= base.pad_count,
        a <= b,
    ensures
        spec_retry_bhop_profile(base, b).pad_count <= spec_retry_bhop_profile(base, a).pad_count,
{
}

/// Law: the intro band always runs the rhythm pattern, and only the advanced
/// band ever chooses a split-merge section.
pub proof fn lemma_split_merge_only_advanced(band: BhopDifficultyBand, state: u64)
    ensures
        band == BhopDifficultyBand::Intro ==> spec_choose_bhop_pattern(band, state)
            == BhopPattern::Rhythm,
        spec_choose_bhop_pattern(band, state) == BhopPattern::SplitMerge ==> band
            == BhopDifficultyBand::Advanced,
{
    reveal_with_fuel(weight_total, 5);
    if band == BhopDifficultyBand::Mid {
        let w = mid_pattern_weights();
        let roll = (draw(state, 0) % 9) as int;
        lemma_weighted_pick_has_weight(w, roll);
        let j = choose|j: int| 0 <= j < w.len() && w[j].0 == weighted_pick(w, roll) && w[j].1 > 0;
        assert(w[j].0 != BhopPattern::SplitMerge);
    }
}

/// Law: difficulty never decreases along the course.
pub proof fn lemma_band_monotone(a: usize, b: usize)
    requires
        a <= b,
    ensures
        spec_difficulty_band(a) == BhopDifficultyBand::Advanced ==> spec_difficulty_band(b)
            == BhopDifficultyBand::Advanced,
        spec_difficulty_band(b) == BhopDifficultyBand::Intro ==> spec_difficulty_band(a)
            == BhopDifficultyBand::Intro,
{
}

/// Law: along the course, sections never get fewer pads to work with and
/// never get catch pads more often: the band rules of a later ordinal have at
/// least the pad counts and at least the catch interval of an earlier one.
pub proof fn lemma_later_sections_catch_less_often(a: usize, b: usize)
    requires
        a <= b,
    ensures
        spec_band_rules(spec_difficulty_band(a)).min_count <= spec_band_rules(
            spec_difficulty_band(b),
        ).min_count,
        spec_band_rules(spec_difficulty_band(a)).max_count <= spec_band_rules(
            spec_difficulty_band(b),
        ).max_count,
        spec_band_rules(spec_difficulty_band(a)).catch_interval <= spec_band_rules(
            spec_difficulty_band(b),
        ).catch_interval,
{
}

/// Law: the pattern of a section is read off one roll of the stream. The
/// intro band takes no draw and always runs the rhythm pattern. The mid band
/// takes one draw and, on its first output word modulo nine, runs rhythm on
/// 0-3, lane switch on 4-6 and drop strafe on 7-8. The advanced band takes one
/// draw and, on the word modulo ten, runs rhythm on 0-1, lane switch on 2-4,
/// drop strafe on 5-6 and split-merge on 7-9.
pub proof fn lemma_pattern_choice_by_roll(state: u64)
    ensures
        spec_choose_bhop_pattern(BhopDifficultyBand::Intro, state) == BhopPattern::Rhythm,
        pattern_draws(BhopDifficultyBand::Intro) == 0,
        pattern_draws(BhopDifficultyBand::Mid) == 1,
        pattern_draws(BhopDifficultyBand::Advanced) == 1,
        spec_choose_bhop_pattern(BhopDifficultyBand::Mid, state) == (if draw(state, 0) % 9 < 4 {
            BhopPattern::Rhythm
        } else if draw(state, 0) % 9 < 7 {
            BhopPattern::LaneSwitch
        } else {
            BhopPattern::DropStrafe
        }),
        spec_choose_bhop_pattern(BhopDifficultyBand::Advanced, state) == (if draw(state, 0) % 10
            < 2 {
            BhopPattern::Rhythm
        } else if draw(state, 0) % 10 < 5 {
            BhopPattern::LaneSwitch
        } else if draw(state, 0) % 10 < 7 {
            BhopPattern::DropStrafe
        } else {
            BhopPattern::SplitMerge
        }),
{
    reveal_with_fuel(weighted_pick, 5);
    let m = mid_pattern_weights();
    let a = advanced_pattern_weights();
    assert(m.drop_first() =~= seq![(BhopPattern::LaneSwitch, 3u32), (BhopPattern::DropStrafe, 2u32)]);
    assert(m.drop_first().drop_first() =~= seq![(BhopPattern::DropStrafe, 2u32)]);
    assert(a.drop_first() =~= seq![
        (BhopPattern::LaneSwitch, 3u32),
        (BhopPattern::DropStrafe, 2u32),
        (BhopPattern::SplitMerge, 3u32),
    ]);
    assert(a.drop_first().drop_first() =~= seq![
        (BhopPattern::DropStrafe, 2u32),
        (BhopPattern::SplitMerge, 3u32),
    ]);
    assert(a.drop_first().drop_first().drop_first() =~= seq![(BhopPattern::SplitMerge, 3u32)]);
}

/// Law: a retry changes nothing but the pad count before the fifth retry; the
/// band, minimum and catch interval never change; only a split-merge section
/// changes pattern, and it becomes a lane switch from the fifth retry on, on a
/// straight, serpentine or switchback path (a curved path becomes a
/// serpentine). The pad count drops by one per retry after the first, down to
/// the band's minimum.
pub proof fn lemma_retry_keeps_shape_until_fifth(base: BhopProfile, retry: usize)
    ensures
        spec_retry_bhop_profile(base, retry).band == base.band,
        spec_retry_bhop_profile(base, retry).min_pad_count == base.min_pad_count,
        spec_retry_bhop_profile(base, retry).catch_interval == base.catch_interval,
        retry < 5 ==> spec_retry_bhop_profile(base, retry).pattern == base.pattern
            && spec_retry_bhop_profile(base, retry).path_style == base.path_style,
        base.pattern != BhopPattern::SplitMerge ==> spec_retry_bhop_profile(base, retry).pattern
            == base.pattern && spec_retry_bhop_profile(base, retry).path_style == base.path_style,
        retry >= 5 && base.pattern == BhopPattern::SplitMerge ==> spec_retry_bhop_profile(
            base,
            retry,
        ).pattern == BhopPattern::LaneSwitch && spec_retry_bhop_profile(base, retry).path_style == (
        match base.path_style {
            PathLateralStyle::Straight => PathLateralStyle::Straight,
            PathLateralStyle::Switchback => PathLateralStyle::Switchback,
            _ => PathLateralStyle::Serpentine,
        }),
        base.min_pad_count <= base.pad_count ==> spec_retry_bhop_profile(base, retry).pad_count == (
        if retry <= 1 {
            base.pad_count as int
        } else if base.pad_count - (retry - 1) >= base.min_pad_count {
            base.pad_count - (retry - 1)
        } else {
            base.min_pad_count as int
        }),
{
}

/// Picking from two weighted entries.
proof fn lemma_pick_two<T>(a: (T, u32), b: (T, u32), roll: int)
    ensures
        weight_total(seq![a, b]) == a.1 + b.1,
        weighted_pick(seq![a, b], roll) == if roll < a.1 {
            a.0
        } else {
            b.0
        },
{
    reveal_with_fuel(weight_total, 3);
    reveal_with_fuel(weighted_pick, 2);
    assert(seq![a, b].drop_first() =~= seq![b]);
    assert(seq![b].drop_first() =~= Seq::<(T, u32)>::empty());
}

/// Picking from three weighted entries.
proof fn lemma_pick_three<T>(a: (T, u32), b: (T, u32), c: (T, u32), roll: int)
    ensures
        weight_total(seq![a, b, c]) == a.1 + b.1 + c.1,
        weighted_pick(seq![a, b, c], roll) == if roll < a.1 {
            a.0
        } else if roll < a.1 + b.1 {
            b.0
        } else {
            c.0
        },
{
    reveal_with_fuel(weight_total, 2);
    reveal_with_fuel(weighted_pick, 2);
    assert(seq![a, b, c].drop_first() =~= seq![b, c]);
    lemma_pick_two(b, c, roll - a.1);
}

/// Law: the path style of a bunny-hop section is read off the first output
/// word of the stream, modulo the total weight of its pattern's styles. An
/// intro rhythm section runs straight on 0-5 of 9 and arcs otherwise; a mid
/// rhythm section runs straight on 0-1, serpentine on 2-5, arc on 6-8 (of 9);
/// an advanced rhythm section runs serpentine on 0-3, switchback on 4-6, arc on
/// 7-9 (of 10); a lane switch runs straight on 0-1, serpentine on 2-5,
/// switchback on 6-9 (of 10); a drop strafe runs straight on 0-2, arc on 3-6,
/// serpentine on 7-8 (of 9); a split-merge section runs straight on 0-3, arc
/// on 4-7, serpentine on 8 (of 9).
pub proof fn lemma_path_style_by_roll(band: BhopDifficultyBand, state: u64)
    ensures
        pick_from(style_weights(BhopDifficultyBand::Intro, BhopPattern::Rhythm), state) == (if draw(
            state,
            0,
        ) % 9 < 6 {
            PathLateralStyle::Straight
        } else {
            PathLateralStyle::Arc
        }),
        pick_from(style_weights(BhopDifficultyBand::Mid, BhopPattern::Rhythm), state) == (if draw(
            state,
            0,
        ) % 9 < 2 {
            PathLateralStyle::Straight
        } else if draw(state, 0) % 9 < 6 {
            PathLateralStyle::Serpentine
        } else {
            PathLateralStyle::Arc
        }),
        pick_from(style_weights(BhopDifficultyBand::Advanced, BhopPattern::Rhythm), state) == (if draw(
            state,
            0,
        ) % 10 < 4 {
            PathLateralStyle::Serpentine
        } else if draw(state, 0) % 10 < 7 {
            PathLateralStyle::Switchback
        } else {
            PathLateralStyle::Arc
        }),
        pick_from(style_weights(band, BhopPattern::LaneSwitch), state) == (if draw(state, 0) % 10
            < 2 {
            PathLateralStyle::Straight
        } else if draw(state, 0) % 10 < 6 {
            PathLateralStyle::Serpentine
        } else {
            PathLateralStyle::Switchback
        }),
        pick_from(style_weights(band, BhopPattern::DropStrafe), state) == (if draw(state, 0) % 9
            < 3 {
            PathLateralStyle::Straight
        } else if draw(state, 0) % 9 < 7 {
            PathLateralStyle::Arc
        } else {
            PathLateralStyle::Serpentine
        }),
        pick_from(style_weights(band, BhopPattern::SplitMerge), state) == (if draw(state, 0) % 9
            < 4 {
            PathLateralStyle::Straight
        } else if draw(state, 0) % 9 < 8 {
            PathLateralStyle::Arc
        } else {
            PathLateralStyle::Serpentine
        }),
{
    let w = draw(state, 0);
    lemma_pick_two((PathLateralStyle::Straight, 6u32), (PathLateralStyle::Arc, 3u32), (w % 9) as int);
    lemma_pick_three(
        (PathLateralStyle::Straight, 2u32),
        (PathLateralStyle::Serpentine, 4u32),
        (PathLateralStyle::Arc, 3u32),
        (w % 9) as int,
    );
    lemma_pick_three(
        (PathLateralStyle::Serpentine, 4u32),
        (PathLateralStyle::Switchback, 3u32),
        (PathLateralStyle::Arc, 3u32),
        (w % 10) as int,
    );
    lemma_pick_three(
        (PathLateralStyle::Straight, 2u32),
        (PathLateralStyle::Serpentine, 4u32),
        (PathLateralStyle::Switchback, 4u32),
        (w % 10) as int,
    );
    lemma_pick_three(
        (PathLateralStyle::Straight, 3u32),
        (PathLateralStyle::Arc, 4u32),
        (PathLateralStyle::Serpentine, 2u32),
        (w % 9) as int,
    );
    lemma_pick_three(
        (PathLateralStyle::Straight, 4u32),
        (PathLateralStyle::Arc, 4u32),
        (PathLateralStyle::Serpentine, 1u32),
        (w % 9) as int,
    );
}

/// Law: the path style of a surf ramp is read off the first output word of the
/// stream modulo 13: an intense ramp runs straight on 0, one-sided arc on 1-8
/// and arc on 9-12; a calm ramp runs straight on 0-1, one-sided arc on 2-8 and
/// arc on 9-12.
pub proof fn lemma_surf_style_by_roll(state: u64)
    ensures
        pick_from(surf_style_weights(true), state) == (if draw(state, 0) % 13 < 1 {
            PathLateralStyle::Straight
        } else if draw(state, 0) % 13 < 9 {
            PathLateralStyle::OneSidedArc
        } else {
            PathLateralStyle::Arc
        }),
        pick_from(surf_style_weights(false), state) == (if draw(state, 0) % 13 < 2 {
            PathLateralStyle::Straight
        } else if draw(state, 0) % 13 < 9 {
            PathLateralStyle::OneSidedArc
        } else {
            PathLateralStyle::Arc
        }),
{
    let w = draw(state, 0);
    lemma_pick_three(
        (PathLateralStyle::Straight, 1u32),
        (PathLateralStyle::OneSidedArc, 8u32),
        (PathLateralStyle::Arc, 4u32),
        (w % 13) as int,
    );
    lemma_pick_three(
        (PathLateralStyle::Straight, 2u32),
        (PathLateralStyle::OneSidedArc, 7u32),
        (PathLateralStyle::Arc, 4u32),
        (w % 13) as int,
    );
}

/// Law: a section's pad count is the rounded request, held within the band's
/// pad range and to at most one pad more than the whole minimum spacings that
/// fit, but never below the band's minimum; a split-merge section has at least
/// eight pads.
pub proof fn lemma_pad_count_rule(
    band: BhopDifficultyBand,
    pattern: BhopPattern,
    rounded_request: usize,
    spacing_steps: usize,
)
    ensures
        ({
            let low = spec_band_rules(band).min_count as int;
            let high = spec_band_rules(band).max_count as int;
            let wanted = if rounded_request < high {
                rounded_request as int
            } else {
                high
            };
            let fitted = if wanted < spacing_steps + 1 {
                wanted
            } else {
                spacing_steps + 1
            };
            let count = if fitted > low {
                fitted
            } else {
                low
            };
            spec_bhop_pad_count(band, pattern, rounded_request, spacing_steps) == if pattern
                == BhopPattern::SplitMerge && count < 8 {
                8
            } else {
                count
            }
        }),
{
}

pub open spec fn spec_is_catch_step(profile: BhopProfile, step: usize) -> bool {
    step == 0 || step + 1 == profile.pad_count || step % profile.catch_interval == 0
}

/// A catch pad is a larger, safer pad: the first and last steps and every
/// `catch_interval`-th step.
pub fn bhop_is_catch_step(profile: &BhopProfile, step: usize) -> (catch: bool)
    requires
        profile.catch_interval > 0,
    ensures
        catch == spec_is_catch_step(*profile, step),
{
    step == 0 || (step < usize::MAX && step + 1 == profile.pad_count) || step
        % profile.catch_interval == 0
}

/// The role of a pad: its step, its route bits and whether it is a catch pad.
pub type PadShape = (usize, u8, bool);

/// The pad slot built for shape `shape` as the `index`-th pad of a section
/// whose draws start at generator state `state`: two samples per pad.
pub open spec fn slot_at(shape: PadShape, state: u64, index: nat) -> BhopPadSlot {
    BhopPadSlot {
        step: shape.0,
        route_mask: shape.1,
        catch: shape.2,
        accent: !shape.2 && shape.0 % 3 == 0,
        side_sample: unit_sample(state, 2 * index),
        height_sample: unit_sample(state, 2 * index + 1),
    }
}

pub open spec fn slots_for(shapes: Seq<PadShape>, state: u64) -> Seq<BhopPadSlot> {
    Seq::new(shapes.len(), |i: int| slot_at(shapes[i], state, i as nat))
}

/// One pad per step on the safe route, catch pads at the catch steps and at
/// both ends (the rhythm and lane-switch patterns).
pub open spec fn single_lane_shapes(profile: BhopProfile) -> Seq<PadShape> {
    Seq::new(
        profile.pad_count as nat,
        |step: int|
            (
                step as usize,
                SAFE_ROUTE,
                spec_is_catch_step(profile, step as usize) || step == 0 || step + 1
                    == profile.pad_count,
            ),
    )
}

/// The drop-strafe pattern: as a single lane, with catch pads on the first two
/// and the last two steps as well.
pub open spec fn drop_strafe_shapes(profile: BhopProfile) -> Seq<PadShape> {
    Seq::new(
        profile.pad_count as nat,
        |step: int|
            (
                step as usize,
                SAFE_ROUTE,
                spec_is_catch_step(profile, step as usize) || step <= 1 || step + 2
                    >= profile.pad_count,
            ),
    )
}

pub open spec fn split_start(pad_count: usize) -> int {
    spec_max((pad_count / 3) as int, 2)
}

pub open spec fn merge_start(pad_count: usize) -> int {
    spec_saturating_sub(pad_count, spec_max((pad_count / 3) as int, 2) as usize) as int
}

/// The pads of one step of a split-merge section: a shared pad before the
/// split and after the merge, a safe and a risky pad in between.
pub open spec fn split_merge_step_shapes(pad_count: usize, step: usize) -> Seq<PadShape> {
    if step < split_start(pad_count) || step >= merge_start(pad_count) {
        seq![
            (
                step,
                SHARED_ROUTE,
                step == 0 || step + 1 == pad_count || step + 1 == split_start(pad_count) || step
                    == merge_start(pad_count),
            ),
        ]
    } else {
        seq![(step, SAFE_ROUTE, false), (step, RISK_ROUTE, false)]
    }
}

/// The pads of the first `steps` steps of a split-merge section.
pub open spec fn split_merge_shapes_upto(pad_count: usize, steps: nat) -> Seq<PadShape>
    decreases steps,
{
    if steps == 0 {
        Seq::empty()
    } else {
        split_merge_shapes_upto(pad_count, (steps - 1) as nat) + split_merge_step_shapes(
            pad_count,
            (steps - 1) as usize,
        )
    }
}

/// The pad roles of a profile's pattern, in the order the pads are built.
pub open spec fn pad_shapes(profile: BhopProfile) -> Seq<PadShape> {
    match profile.pattern {
        BhopPattern::Rhythm | BhopPattern::LaneSwitch => single_lane_shapes(profile),
        BhopPattern::DropStrafe => drop_strafe_shapes(profile),
        BhopPattern::SplitMerge => split_merge_shapes_upto(profile.pad_count, profile.pad_count as nat),
    }
}

/// One pad: an accent pad is a non-catch pad on every third step; the side
/// and the height each take one sample.
pub fn make_bhop_pad(rng: &mut RunRng, step: usize, route_mask: u8, catch: bool) -> (slot: BhopPadSlot)
    ensures
        slot == slot_at((step, route_mask, catch), old(rng).state, 0),
        final(rng).state == advance(old(rng).state, 2),
{
    let accent = !catch && step % 3 == 0;
    let side_sample = rng.next_unit_sample();
    let height_sample = rng.next_unit_sample();
    proof {
        lemma_unit_sample_shift(old(rng).state, 1, 0);
        lemma_advance_add(old(rng).state, 1, 1);
    }
    BhopPadSlot { step, route_mask, catch, accent, side_sample, height_sample }
}

/// Pushing the pad of shape `shape` as the next pad of a section.
proof fn lemma_slots_push(shapes: Seq<PadShape>, shape: PadShape, state: u64, slot: BhopPadSlot)
    requires
        slot == slot_at(shape, advance(state, 2 * shapes.len()), 0),
    ensures
        slots_for(shapes, state).push(slot) == slots_for(shapes.push(shape), state),
{
    lemma_unit_sample_shift(state, 2 * shapes.len(), 0);
    lemma_unit_sample_shift(state, 2 * shapes.len(), 1);
    assert(slots_for(shapes, state).push(slot) =~= slots_for(shapes.push(shape), state));
}

fn build_single_lane_pads(profile: &BhopProfile, rng: &mut RunRng, drop_strafe: bool) -> (pads: Vec<
    BhopPadSlot,
>)
    requires
        profile.catch_interval > 0,
    ensures
        pads@ == slots_for(
            if drop_strafe {
                drop_strafe_shapes(*profile)
            } else {
                single_lane_shapes(*profile)
            },
            old(rng).state,
        ),
        final(rng).state == advance(old(rng).state, 2 * pads@.len()),
{
    let ghost shapes = if drop_strafe {
        drop_strafe_shapes(*profile)
    } else {
        single_lane_shapes(*profile)
    };
    let mut pads: Vec<BhopPadSlot> = Vec::new();
    let mut step: usize = 0;
    assert(advance(old(rng).state, 0) == old(rng).state);
    while step < profile.pad_count
        invariant
            profile.catch_interval > 0,
            step <= profile.pad_count,
            shapes.len() == profile.pad_count,
            shapes == if drop_strafe {
                drop_strafe_shapes(*profile)
            } else {
                single_lane_shapes(*profile)
            },
            pads@ == slots_for(shapes.take(step as int), old(rng).state),
            rng.state == advance(old(rng).state, 2 * step as nat),
        decreases profile.pad_count - step,
    {
        let is_catch = bhop_is_catch_step(profile, step);
        let catch = if drop_strafe {
            is_catch || step <= 1 || step + 2 >= profile.pad_count
        } else {
            is_catch || step == 0 || step + 1 == profile.pad_count
        };
        let slot = make_bhop_pad(rng, step, SAFE_ROUTE, catch);
        proof {
            assert(shapes[step as int] == (step, SAFE_ROUTE, catch));
            assert(shapes.take(step as int).push(shapes[step as int]) =~= shapes.take(step + 1));
            lemma_slots_push(shapes.take(step as int), (step, SAFE_ROUTE, catch), old(rng).state, slot);
            lemma_advance_add(old(rng).state, 2 * step as nat, 2);
        }
        pads.push(slot);
        step = step + 1;
    }
    assert(shapes.take(step as int) =~= shapes);
    pads
}

pub fn build_rhythm_bhop_pads(profile: &BhopProfile, rng: &mut RunRng) -> (pads: Vec<BhopPadSlot>)
    requires
        profile.catch_interval > 0,
    ensures
        pads@ == slots_for(single_lane_shapes(*profile), old(rng).state),
        final(rng).state == advance(old(rng).state, 2 * pads@.len()),
{
    build_single_lane_pads(profile, rng, false)
}

pub fn build_lane_switch_bhop_pads(profile: &BhopProfile, rng: &mut RunRng) -> (pads: Vec<
    BhopPadSlot,
>)
    requires
        profile.catch_interval > 0,
    ensures
        pads@ == slots_for(single_lane_shapes(*profile), old(rng).state),
        final(rng).state == advance(old(rng).state, 2 * pads@.len()),
{
    build_single_lane_pads(profile, rng, false)
}

pub fn build_drop_strafe_bhop_pads(profile: &BhopProfile, rng: &mut RunRng) -> (pads: Vec<
    BhopPadSlot,
>)
    requires
        profile.catch_interval > 0,
    ensures
        pads@ == slots_for(drop_strafe_shapes(*profile), old(rng).state),
        final(rng).state == advance(old(rng).state, 2 * pads@.len()),
{
    build_single_lane_pads(profile, rng, true)
}

pub fn build_split_merge_bhop_pads(profile: &BhopProfile, rng: &mut RunRng) -> (pads: Vec<
    BhopPadSlot,
>)
    ensures
        pads@ == slots_for(
            split_merge_shapes_upto(profile.pad_count, profile.pad_count as nat),
            old(rng).state,
        ),
        final(rng).state == advance(old(rng).state, 2 * pads@.len()),
{
    let n = profile.pad_count;
    let third = if n / 3 >= 2 {
        n / 3
    } else {
        2
    };
    let split = third;
    let merge = n.saturating_sub(third);
    let mut pads: Vec<BhopPadSlot> = Vec::new();
    let mut step: usize = 0;
    assert(advance(old(rng).state, 0) == old(rng).state);
    assert(split_merge_shapes_upto(n, 0) =~= Seq::<PadShape>::empty());
    while step < n
        invariant
            n == profile.pad_count,
            split == split_start(n),
            merge == merge_start(n),
            step <= n,
            pads@ == slots_for(split_merge_shapes_upto(n, step as nat), old(rng).state),
            rng.state == advance(old(rng).state, 2 * pads@.len()),
        decreases n - step,
    {
        let ghost done = split_merge_shapes_upto(n, step as nat);
        let shared = step < split || step >= merge;
        if shared {
            let catch = step == 0 || step + 1 == n || step + 1 == split || step == merge;
            let slot = make_bhop_pad(rng, step, SHARED_ROUTE, catch);
            proof {
                lemma_slots_push(done, (step, SHARED_ROUTE, catch), old(rng).state, slot);
                lemma_advance_add(old(rng).state, 2 * done.len(), 2);
                assert(done.push((step, SHARED_ROUTE, catch)) =~= split_merge_shapes_upto(
                    n,
                    (step + 1) as nat,
                ));
            }
            pads.push(slot);
        } else {
            let safe = make_bhop_pad(rng, step, SAFE_ROUTE, false);
            proof {
                lemma_slots_push(done, (step, SAFE_ROUTE, false), old(rng).state, safe);
                lemma_advance_add(old(rng).state, 2 * done.len(), 2);
            }
            pads.push(safe);
            let risk = make_bhop_pad(rng, step, RISK_ROUTE, false);
            proof {
                let with_safe = done.push((step, SAFE_ROUTE, false));
                lemma_slots_push(with_safe, (step, RISK_ROUTE, false), old(rng).state, risk);
                lemma_advance_add(old(rng).state, 2 * with_safe.len(), 2);
                assert(with_safe.push((step, RISK_ROUTE, false)) =~= split_merge_shapes_upto(
                    n,
                    (step + 1) as nat,
                ));
            }
            pads.push(risk);
        }
        step = step + 1;
    }
    pads
}

/// The pads of a section, built by its pattern.
pub fn build_bhop_pad_specs(profile: &BhopProfile, rng: &mut RunRng) -> (pads: Vec<BhopPadSlot>)
    requires
        profile.catch_interval > 0,
    ensures
        pads@ == slots_for(pad_shapes(*profile), old(rng).state),
        final(rng).state == advance(old(rng).state, 2 * pads@.len()),
{
    match profile.pattern {
        BhopPattern::Rhythm => build_rhythm_bhop_pads(profile, rng),
        BhopPattern::LaneSwitch => build_lane_switch_bhop_pads(profile, rng),
        BhopPattern::DropStrafe => build_drop_strafe_bhop_pads(profile, rng),
        BhopPattern::SplitMerge => build_split_merge_bhop_pads(profile, rng),
    }
}

/// Some pad at step `step` lies on route `route`.
pub open spec fn route_pad_at(pads: Seq<BhopPadSlot>, route: u8, step: int) -> bool {
    exists|j: int|
        0 <= j < pads.len() && #[trigger] pads[j].step == step && pads[j].route_mask & route != 0
}

/// Every step below `steps` has a pad on route `route`.
pub open spec fn route_complete(pads: Seq<BhopPadSlot>, route: u8, steps: usize) -> bool {
    forall|step: int| 0 <= step < steps ==> #[trigger] route_pad_at(pads, route, step)
}

/// Some pad at step `step` is a catch pad.
pub open spec fn has_catch_at(pads: Seq<BhopPadSlot>, step: usize) -> bool {
    exists|j: int| 0 <= j < pads.len() && #[trigger] pads[j].step == step && pads[j].catch
}

/// Every pad lies on one of the first `steps` steps.
pub open spec fn steps_below(pads: Seq<BhopPadSlot>, steps: usize) -> bool {
    forall|j: int| 0 <= j < pads.len() ==> #[trigger] pads[j].step < steps
}

pub open spec fn shape_on_safe_route_at(shapes: Seq<PadShape>, step: int) -> bool {
    exists|j: int|
        0 <= j < shapes.len() && #[trigger] shapes[j].0 == step && shapes[j].1 & SAFE_ROUTE != 0
}

pub open spec fn shapes_route_complete(shapes: Seq<PadShape>, steps: int) -> bool {
    forall|step: int| 0 <= step < steps ==> #[trigger] shape_on_safe_route_at(shapes, step)
}

pub open spec fn shapes_steps_below(shapes: Seq<PadShape>, steps: int) -> bool {
    forall|j: int| 0 <= j < shapes.len() ==> #[trigger] shapes[j].0 < steps
}

pub open spec fn shapes_catch_at(shapes: Seq<PadShape>, step: int) -> bool {
    exists|j: int| 0 <= j < shapes.len() && #[trigger] shapes[j].0 == step && shapes[j].2
}

proof fn lemma_route_bits()
    ensures
        SAFE_ROUTE & SAFE_ROUTE != 0,
        SHARED_ROUTE & SAFE_ROUTE != 0,
        SHARED_ROUTE & RISK_ROUTE != 0,
        RISK_ROUTE & RISK_ROUTE != 0,
        RISK_ROUTE & SAFE_ROUTE == 0,
        SAFE_ROUTE & RISK_ROUTE == 0,
{
    assert(1u8 & 1u8 != 0) by (bit_vector);
    assert(3u8 & 1u8 != 0) by (bit_vector);
    assert(3u8 & 2u8 != 0) by (bit_vector);
    assert(2u8 & 2u8 != 0) by (bit_vector);
    assert(2u8 & 1u8 == 0) by (bit_vector);
    assert(1u8 & 2u8 == 0) by (bit_vector);
}

/// The first `steps` steps of a split-merge section cover every one of those
/// steps on the safe route and nothing beyond them; the first step holds a
/// catch pad.
proof fn lemma_split_merge_upto(n: usize, steps: nat)
    requires
        steps <= n,
    ensures
        shapes_steps_below(split_merge_shapes_upto(n, steps), steps as int),
        shapes_route_complete(split_merge_shapes_upto(n, steps), steps as int),
        steps > 0 ==> shapes_catch_at(split_merge_shapes_upto(n, steps), 0),
        steps == n && n > 0 ==> shapes_catch_at(split_merge_shapes_upto(n, steps), n - 1),
    decreases steps,
{
    lemma_route_bits();
    if steps > 0 {
        let k = (steps - 1) as nat;
        lemma_split_merge_upto(n, k);
        let prev = split_merge_shapes_upto(n, k);
        let here = split_merge_step_shapes(n, k as usize);
        let all = split_merge_shapes_upto(n, steps);
        assert(all == prev + here);
        assert forall|j: int| 0 <= j < all.len() implies #[trigger] all[j].0 < steps by {
            if j < prev.len() {
                assert(all[j] == prev[j]);
            }
        }
        assert forall|step: int| 0 <= step < steps implies #[trigger] shape_on_safe_route_at(
            all,
            step,
        ) by {
            if step < k {
                assert(shape_on_safe_route_at(prev, step));
                let j = choose|j: int|
                    0 <= j < prev.len() && #[trigger] prev[j].0 == step && prev[j].1 & SAFE_ROUTE != 0;
                assert(all[j] == prev[j]);
            } else {
                assert(all[prev.len() as int] == here[0]);
                if (k as int) < split_start(n) || (k as int) >= merge_start(n) {
                    assert(here[0].1 == SHARED_ROUTE);
                } else {
                    assert(here[0].1 == SAFE_ROUTE);
                }
                assert(here[0].0 == step);
                assert(all[prev.len() as int].0 == step);
            }
        }
        if k > 0 {
            let j = choose|j: int| 0 <= j < prev.len() && #[trigger] prev[j].0 == 0 && prev[j].2;
            assert(all[j] == prev[j]);
        } else {
            assert(all[prev.len() as int] == here[0]);
            assert(here[0].0 == 0 && here[0].2);
        }
        if steps == n && n > 0 {
            assert(k as int >= merge_start(n));
            assert(here[0] == (k as usize, SHARED_ROUTE, true));
            assert(all[prev.len() as int] == here[0]);
            assert(all[prev.len() as int].0 == n - 1);
        }
    }
}

/// Law: every pattern lays a start-to-finish safe route with one pad at each
/// step, puts catch pads at the first and the last step, and places no pad
/// beyond the last step.
pub proof fn lemma_bhop_pads_playable(profile: BhopProfile, state: u64)
    requires
        profile.pad_count > 0,
    ensures
        route_complete(slots_for(pad_shapes(profile), state), SAFE_ROUTE, profile.pad_count),
        has_catch_at(slots_for(pad_shapes(profile), state), 0),
        has_catch_at(slots_for(pad_shapes(profile), state), (profile.pad_count - 1) as usize),
        steps_below(slots_for(pad_shapes(profile), state), profile.pad_count),
{
    lemma_route_bits();
    let n = profile.pad_count;
    let shapes = pad_shapes(profile);
    let slots = slots_for(shapes, state);
    if profile.pattern == BhopPattern::SplitMerge {
        lemma_split_merge_upto(n, n as nat);
    } else {
        assert forall|step: int| 0 <= step < n implies #[trigger] shape_on_safe_route_at(
            shapes,
            step,
        ) by {
            assert(shapes[step].0 == step);
        }
        assert(shapes[0].0 == 0 && shapes[0].2);
        assert(shapes[n - 1].0 == n - 1 && shapes[n - 1].2);
    }
    assert forall|step: int| 0 <= step < n implies #[trigger] route_pad_at(slots, SAFE_ROUTE, step) by {
        assert(shape_on_safe_route_at(shapes, step));
        let j = choose|j: int|
            0 <= j < shapes.len() && #[trigger] shapes[j].0 == step && shapes[j].1 & SAFE_ROUTE != 0;
        assert(slots[j].step == shapes[j].0);
    }
    let j0 = choose|j: int| 0 <= j < shapes.len() && #[trigger] shapes[j].0 == 0 && shapes[j].2;
    assert(slots[j0].step == 0 && slots[j0].catch);
    let j1 = choose|j: int| 0 <= j < shapes.len() && #[trigger] shapes[j].0 == n - 1 && shapes[j].2;
    assert(slots[j1].step == n - 1 && slots[j1].catch);
    if profile.pattern == BhopPattern::SplitMerge {
        assert forall|j: int| 0 <= j < slots.len() implies #[trigger] slots[j].step < n by {
            assert(shapes[j].0 < n);
        }
    }
}

/// Law: a rhythm or lane-switch section lays one safe-route pad per step, in
/// step order, and a pad is a catch pad exactly at the first and the last step
/// and at every step that is a multiple of the catch interval; a drop-strafe
/// section does the same, with catch pads also on its first two and last two
/// steps.
pub proof fn lemma_single_lane_catch_pads(profile: BhopProfile, state: u64)
    requires
        profile.catch_interval > 0,
        profile.pattern != BhopPattern::SplitMerge,
    ensures
        slots_for(pad_shapes(profile), state).len() == profile.pad_count,
        forall|j: int|
            0 <= j < profile.pad_count ==> (#[trigger] slots_for(pad_shapes(profile), state)[j]).step
                == j && slots_for(pad_shapes(profile), state)[j].route_mask == SAFE_ROUTE,
        profile.pattern != BhopPattern::DropStrafe ==> forall|j: int|
            0 <= j < profile.pad_count ==> ((#[trigger] slots_for(pad_shapes(profile), state)[j]).catch
                <==> (j == 0 || j + 1 == profile.pad_count || j % (profile.catch_interval as int)
                == 0)),
        profile.pattern == BhopPattern::DropStrafe ==> forall|j: int|
            0 <= j < profile.pad_count ==> ((#[trigger] slots_for(pad_shapes(profile), state)[j]).catch
                <==> (j <= 1 || j + 2 >= profile.pad_count || j % (profile.catch_interval as int)
                == 0)),
{
    let slots = slots_for(pad_shapes(profile), state);
    assert forall|j: int| 0 <= j < profile.pad_count implies (#[trigger] slots[j]).step == j
        && slots[j].route_mask == SAFE_ROUTE && (profile.pattern != BhopPattern::DropStrafe ==> (
    slots[j].catch <==> (j == 0 || j + 1 == profile.pad_count || j % (profile.catch_interval as int)
        == 0))) && (profile.pattern == BhopPattern::DropStrafe ==> (slots[j].catch <==> (j <= 1 || j
        + 2 >= profile.pad_count || j % (profile.catch_interval as int) == 0))) by {
        assert(slots[j] == slot_at(pad_shapes(profile)[j], state, j as nat));
    }
}

/// Some pad at step `step` has exactly the route bits `mask`.
pub open spec fn lane_pad_at(pads: Seq<BhopPadSlot>, mask: u8, step: int) -> bool {
    exists|j: int| 0 <= j < pads.len() && #[trigger] pads[j].step == step && pads[j].route_mask == mask
}

/// Whether `step` lies between the split and the merge of a split-merge
/// section of `n` pads: from a third of the pads (at least two) up to as many
/// steps before the end.
pub open spec fn split_merge_lanes_step(n: int, step: int) -> bool {
    let s = if n / 3 >= 2 {
        n / 3
    } else {
        2
    };
    let m = if n >= s {
        n - s
    } else {
        0
    };
    s <= step < m && step < n
}

/// Whether a step of a split-merge section with `n` pads is shared by both
/// routes: before the split or from the merge on.
pub open spec fn split_merge_shared_step(n: usize, step: int) -> bool {
    step < split_start(n) || step >= merge_start(n)
}

proof fn lemma_split_merge_roles_upto(n: usize, steps: nat)
    requires
        steps <= n,
    ensures
        forall|j: int|
            0 <= j < split_merge_shapes_upto(n, steps).len() ==> {
                let shape = #[trigger] split_merge_shapes_upto(n, steps)[j];
                &&& shape.0 < steps
                &&& split_merge_shared_step(n, shape.0 as int) ==> shape.1 == SHARED_ROUTE && (
                shape.2 <==> (shape.0 == 0 || shape.0 + 1 == n || shape.0 + 1 == split_start(n)
                    || shape.0 == merge_start(n)))
                &&& !split_merge_shared_step(n, shape.0 as int) ==> (shape.1 == SAFE_ROUTE
                    || shape.1 == RISK_ROUTE) && !shape.2
            },
        forall|step: int|
            0 <= step < steps && !split_merge_shared_step(n, step) ==> (exists|j: int|
                0 <= j < split_merge_shapes_upto(n, steps).len() && #[trigger] split_merge_shapes_upto(
                    n,
                    steps,
                )[j] == (step as usize, SAFE_ROUTE, false)) && (exists|j: int|
                0 <= j < split_merge_shapes_upto(n, steps).len() && #[trigger] split_merge_shapes_upto(
                    n,
                    steps,
                )[j] == (step as usize, RISK_ROUTE, false)),
    decreases steps,
{
    if steps > 0 {
        let k = (steps - 1) as nat;
        lemma_split_merge_roles_upto(n, k);
        let prev = split_merge_shapes_upto(n, k);
        let here = split_merge_step_shapes(n, k as usize);
        let all = split_merge_shapes_upto(n, steps);
        assert(all == prev + here);
        assert forall|j: int| 0 <= j < all.len() implies {
            let shape = #[trigger] all[j];
            &&& shape.0 < steps
            &&& split_merge_shared_step(n, shape.0 as int) ==> shape.1 == SHARED_ROUTE && (shape.2
                <==> (shape.0 == 0 || shape.0 + 1 == n || shape.0 + 1 == split_start(n) || shape.0
                == merge_start(n)))
            &&& !split_merge_shared_step(n, shape.0 as int) ==> (shape.1 == SAFE_ROUTE || shape.1
                == RISK_ROUTE) && !shape.2
        } by {
            if j < prev.len() {
                assert(all[j] == prev[j]);
            } else {
                assert(all[j] == here[j - prev.len()]);
            }
        }
        assert forall|step: int| 0 <= step < steps && !split_merge_shared_step(n, step) implies (
        exists|j: int| 0 <= j < all.len() && #[trigger] all[j] == (step as usize, SAFE_ROUTE, false))
            && (exists|j: int|
            0 <= j < all.len() && #[trigger] all[j] == (step as usize, RISK_ROUTE, false)) by {
            if step < k {
                let j1 = choose|j: int|
                    0 <= j < prev.len() && #[trigger] prev[j] == (step as usize, SAFE_ROUTE, false);
                let j2 = choose|j: int|
                    0 <= j < prev.len() && #[trigger] prev[j] == (step as usize, RISK_ROUTE, false);
                assert(all[j1] == prev[j1]);
                assert(all[j2] == prev[j2]);
            } else {
                assert(all[prev.len() as int] == here[0]);
                assert(all[prev.len() as int + 1] == here[1]);
            }
        }
    }
}

/// Law: a split-merge section of `n` pads splits at `s`, a third of the pads
/// but at least two, and merges at `n - s`. Each step before the split and
/// from the merge on has one pad on both routes, a catch pad exactly at the
/// first and last steps, the last step before the split and the merge step;
/// each step in between has a safe and a risky pad, and no catch pad.
pub proof fn lemma_split_merge_pad_roles(profile: BhopProfile, state: u64)
    requires
        profile.pattern == BhopPattern::SplitMerge,
    ensures
        forall|j: int|
            0 <= j < slots_for(pad_shapes(profile), state).len() ==> {
                let n = profile.pad_count as int;
                let s = if n / 3 >= 2 {
                    n / 3
                } else {
                    2
                };
                let m = if n >= s {
                    n - s
                } else {
                    0
                };
                let pad = #[trigger] slots_for(pad_shapes(profile), state)[j];
                &&& pad.step < n
                &&& (pad.step < s || pad.step >= m) ==> pad.route_mask == 3 && (pad.catch <==> (
                pad.step == 0 || pad.step + 1 == n || pad.step + 1 == s || pad.step == m))
                &&& !(pad.step < s || pad.step >= m) ==> (pad.route_mask == 1 || pad.route_mask
                    == 2) && !pad.catch
            },
        forall|step: int|
            split_merge_lanes_step(profile.pad_count as int, step) ==> #[trigger] lane_pad_at(
                slots_for(pad_shapes(profile), state),
                1,
                step,
            ),
        forall|step: int|
            split_merge_lanes_step(profile.pad_count as int, step) ==> #[trigger] lane_pad_at(
                slots_for(pad_shapes(profile), state),
                2,
                step,
            ),
{
    let n = profile.pad_count;
    lemma_split_merge_roles_upto(n, n as nat);
    let shapes = pad_shapes(profile);
    assert(shapes == split_merge_shapes_upto(n, n as nat));
    let pads = slots_for(shapes, state);
    let s = if n as int / 3 >= 2 {
        n as int / 3
    } else {
        2
    };
    let m = if n as int >= s {
        n as int - s
    } else {
        0
    };
    assert(split_start(n) == s);
    assert(merge_start(n) == m);
    assert forall|j: int| 0 <= j < pads.len() implies {
        let pad = #[trigger] pads[j];
        &&& pad.step < n
        &&& (pad.step < s || pad.step >= m) ==> pad.route_mask == 3 && (pad.catch <==> (pad.step
            == 0 || pad.step + 1 == n || pad.step + 1 == s || pad.step == m))
        &&& !(pad.step < s || pad.step >= m) ==> (pad.route_mask == 1 || pad.route_mask == 2)
            && !pad.catch
    } by {
        assert(pads[j] == slot_at(shapes[j], state, j as nat));
        let shape = shapes[j];
        assert(shape.0 < n);
        assert(split_merge_shared_step(n, shape.0 as int) == (shape.0 < s || shape.0 >= m));
    }
    assert forall|step: int| split_merge_lanes_step(n as int, step) implies #[trigger] lane_pad_at(
        pads,
        1,
        step,
    ) by {
        assert(s <= step < m && step < n);
        assert(!split_merge_shared_step(n, step));
        let j1 = choose|j: int|
            0 <= j < shapes.len() && #[trigger] shapes[j] == (step as usize, SAFE_ROUTE, false);
        assert(pads[j1] == slot_at(shapes[j1], state, j1 as nat));
        assert(pads[j1].step == step && pads[j1].route_mask == 1);
    }
    assert forall|step: int| split_merge_lanes_step(n as int, step) implies #[trigger] lane_pad_at(
        pads,
        2,
        step,
    ) by {
        assert(s <= step < m && step < n);
        assert(!split_merge_shared_step(n, step));
        let j2 = choose|j: int|
            0 <= j < shapes.len() && #[trigger] shapes[j] == (step as usize, RISK_ROUTE, false);
        assert(pads[j2] == slot_at(shapes[j2], state, j2 as nat));
        assert(pads[j2].step == step && pads[j2].route_mask == 2);
    }
}

} // verus!
