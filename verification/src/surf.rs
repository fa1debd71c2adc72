//! How finely a surf ramp is cut into render wedges and collider seams.
//!
//! The ramp starts from a count set by its length; while the longest wedge is
//! too long or the sharpest seam turns too much, the count is multiplied by
//! two to four, up to a cap. Measuring lengths and turns is floating-point
//! work done by the caller, which passes the ratios rounded up.

use vstd::prelude::*;

verus! {

/// The most render wedges per side of a surf ramp.
pub const SURF_MAX_RENDER_SEGMENTS: usize = 224;

/// The most collider seams of a surf ramp.
pub const SURF_MAX_COLLIDER_SEGMENTS: usize = 640;

pub open spec fn clamp_int(value: int, low: int, high: int) -> int {
    if value < low {
        low
    } else if value > high {
        high
    } else {
        value
    }
}

pub open spec fn spec_render_segment_count(intense: bool, distance_steps: usize) -> int {
    if intense {
        clamp_int(distance_steps as int, 44, 132)
    } else {
        clamp_int(distance_steps as int, 36, 116)
    }
}

pub open spec fn spec_refined_segment_count(
    segment_count: usize,
    length_scale: usize,
    turn_scale: usize,
) -> int {
    let scale = clamp_int(if length_scale >= turn_scale { length_scale as int } else { turn_scale as int }, 2, 4);
    let scaled = segment_count * scale;
    if scaled <= SURF_MAX_RENDER_SEGMENTS {
        scaled
    } else {
        SURF_MAX_RENDER_SEGMENTS as int
    }
}

/// The first wedge count of a ramp: its length in steps of 4.6 (intense) or
/// 5.2, rounded up, between 44 and 132 (intense) or 36 and 116.
pub fn surf_render_segment_count(intense: bool, distance_steps: usize) -> (count: usize)
    ensures
        count == spec_render_segment_count(intense, distance_steps),
{
    let (low, high) = if intense {
        (44usize, 132usize)
    } else {
        (36usize, 116usize)
    };
    if distance_steps < low {
        low
    } else if distance_steps > high {
        high
    } else {
        distance_steps
    }
}

/// The next wedge count: the count times the larger of the length and turn
/// ratios, that factor kept between two and four, at most the cap.
pub fn refine_surf_segment_count(segment_count: usize, length_scale: usize, turn_scale: usize) -> (count: usize)
    ensures
        count == spec_refined_segment_count(segment_count, length_scale, turn_scale),
{
    let wanted = if length_scale >= turn_scale {
        length_scale
    } else {
        turn_scale
    };
    let scale = if wanted < 2 {
        2
    } else if wanted > 4 {
        4
    } else {
        wanted
    };
    match segment_count.checked_mul(scale) {
        Some(scaled) if scaled <= SURF_MAX_RENDER_SEGMENTS => scaled,
        _ => SURF_MAX_RENDER_SEGMENTS,
    }
}

/// The collider seam count: the ramp's length in collider steps, rounded up,
/// at least the wedge count and at most the cap.
pub fn surf_collider_segment_count(distance_steps: usize, segment_count: usize) -> (count: usize)
    requires
        segment_count <= SURF_MAX_COLLIDER_SEGMENTS,
    ensures
        count == clamp_int(distance_steps as int, segment_count as int, SURF_MAX_COLLIDER_SEGMENTS as int),
{
    if distance_steps < segment_count {
        segment_count
    } else if distance_steps > SURF_MAX_COLLIDER_SEGMENTS {
        SURF_MAX_COLLIDER_SEGMENTS
    } else {
        distance_steps
    }
}

/// Law: refining a ramp below the cap at least doubles its wedge count or
/// reaches the cap, and never passes the cap, so the refinement loop ends
/// after at most a handful of rounds.
pub proof fn lemma_refinement_progress(segment_count: usize, length_scale: usize, turn_scale: usize)
    requires
        0 < segment_count < SURF_MAX_RENDER_SEGMENTS,
    ensures
        segment_count < spec_refined_segment_count(segment_count, length_scale, turn_scale)
            <= SURF_MAX_RENDER_SEGMENTS,
        spec_refined_segment_count(segment_count, length_scale, turn_scale) >= 2 * segment_count
            || spec_refined_segment_count(segment_count, length_scale, turn_scale)
            == SURF_MAX_RENDER_SEGMENTS,
{
    let wanted = if length_scale >= turn_scale { length_scale as int } else { turn_scale as int };
    let scale = clamp_int(wanted, 2, 4);
    assert(segment_count * scale >= 2 * segment_count) by (nonlinear_arith)
        requires
            scale >= 2,
            segment_count > 0,
    ;
}

/// Law: the render wedge count of a ramp lies between 36 and 132.
pub proof fn lemma_render_segment_bounds(intense: bool, distance_steps: usize)
    ensures
        36 <= spec_render_segment_count(intense, distance_steps) <= 132,
{
}

/// Law: a ramp starts with its length in steps, at least 44 and at most 132
/// wedges when intense and at least 36 and at most 116 otherwise; a refinement
/// multiplies the count by the larger ratio, taken as at least two and at most
/// four, and stops at 224; the collider takes its length in steps, at least the
/// wedge count and at most 640.
pub proof fn lemma_segment_counts(
    distance_steps: usize,
    segment_count: usize,
    length_scale: usize,
    turn_scale: usize,
)
    ensures
        spec_render_segment_count(true, distance_steps) == if distance_steps < 44 {
            44
        } else if distance_steps > 132 {
            132
        } else {
            distance_steps as int
        },
        spec_render_segment_count(false, distance_steps) == if distance_steps < 36 {
            36
        } else if distance_steps > 116 {
            116
        } else {
            distance_steps as int
        },
        ({
            let larger = if length_scale > turn_scale {
                length_scale as int
            } else {
                turn_scale as int
            };
            let factor = if larger < 2 {
                2
            } else if larger > 4 {
                4
            } else {
                larger
            };
            spec_refined_segment_count(segment_count, length_scale, turn_scale) == if segment_count
                * factor > 224 {
                224
            } else {
                segment_count * factor
            }
        }),
        segment_count <= 640 ==> clamp_int(
            distance_steps as int,
            segment_count as int,
            SURF_MAX_COLLIDER_SEGMENTS as int,
        ) == if distance_steps < segment_count {
            segment_count as int
        } else if distance_steps > 640 {
            640
        } else {
            distance_steps as int
        },
{
}

} // verus!
