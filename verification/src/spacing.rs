//! Which pairs of bunny-hop pads the spacing rules examine.
//!
//! Three rules hold a section together: consecutive pads along a route keep a
//! minimum edge gap, the two pads of a split step keep a minimum branch gap,
//! and no other two pads overlap (pads on consecutive steps of a shared route
//! and pads of the same step are measured by the first two rules instead).
//! This module lists the pairs each rule examines, in the order they are
//! examined; measuring the gaps is floating-point work done by the caller.

use vstd::prelude::*;

use crate::bhop::{
    lemma_bhop_pads_playable, pad_shapes, route_complete, route_pad_at, slots_for, BhopPadSlot, BhopPattern,
    BhopProfile, RISK_ROUTE, SAFE_ROUTE,
};

verus! {

#[derive(Clone, Copy, Debug, PartialEq, Eq, Structural)]
pub enum BhopSpacingIssueKind {
    RouteGap,
    BranchGap,
    Overlap,
}

/// A pair of pads that one rule examines; `left` and `right` index the pads.
#[derive(Clone, Copy, Debug, PartialEq, Eq, Structural)]
pub struct BhopSpacingCheck {
    pub kind: BhopSpacingIssueKind,
    pub left: usize,
    pub right: usize,
    pub earlier_step: usize,
    pub later_step: usize,
}

pub open spec fn spec_route_masks(pattern: BhopPattern) -> Seq<u8> {
    match pattern {
        BhopPattern::SplitMerge => seq![SAFE_ROUTE, RISK_ROUTE],
        _ => seq![SAFE_ROUTE],
    }
}

/// The routes of a pattern: the safe route, and the risky one of a
/// split-merge section.
pub fn bhop_route_masks(pattern: BhopPattern) -> (masks: Vec<u8>)
    ensures
        masks@ == spec_route_masks(pattern),
{
    match pattern {
        BhopPattern::SplitMerge => vec![SAFE_ROUTE, RISK_ROUTE],
        _ => vec![SAFE_ROUTE],
    }
}

pub open spec fn on_route_at(pad: BhopPadSlot, step: int, route_mask: u8) -> bool {
    pad.step == step && pad.route_mask & route_mask != 0
}

/// The first pad at or after `from` that lies at `step` on `route_mask`.
pub open spec fn route_pad_index_from(
    pads: Seq<BhopPadSlot>,
    step: int,
    route_mask: u8,
    from: int,
) -> Option<int>
    decreases pads.len() - from,
{
    if from < 0 || from >= pads.len() {
        None
    } else if on_route_at(pads[from], step, route_mask) {
        Some(from)
    } else {
        route_pad_index_from(pads, step, route_mask, from + 1)
    }
}

/// The first pad that lies at `step` on `route_mask`.
pub open spec fn spec_route_pad_index(pads: Seq<BhopPadSlot>, step: int, route_mask: u8) -> Option<
    int,
> {
    route_pad_index_from(pads, step, route_mask, 0)
}

/// The search from `from` finds the first matching pad at or after `from`.
pub proof fn lemma_route_pad_index_from(
    pads: Seq<BhopPadSlot>,
    step: int,
    route_mask: u8,
    from: int,
)
    requires
        0 <= from <= pads.len(),
    ensures
        match route_pad_index_from(pads, step, route_mask, from) {
            Some(i) => from <= i < pads.len() && on_route_at(pads[i], step, route_mask) && forall|
                k: int,
            |
                from <= k < i ==> !on_route_at(#[trigger] pads[k], step, route_mask),
            None => forall|k: int|
                from <= k < pads.len() ==> !on_route_at(#[trigger] pads[k], step, route_mask),
        },
    decreases pads.len() - from,
{
    if from < pads.len() && !on_route_at(pads[from], step, route_mask) {
        lemma_route_pad_index_from(pads, step, route_mask, from + 1);
    }
}

/// The index of the first pad at `step` on route `route_mask`, if any.
pub fn route_pad_index_for_step(pads: &[BhopPadSlot], step: usize, route_mask: u8) -> (index:
    Option<usize>)
    ensures
        match index {
            Some(i) => spec_route_pad_index(pads@, step as int, route_mask) == Some(i as int),
            None => spec_route_pad_index(pads@, step as int, route_mask) is None,
        },
{
    let mut i: usize = 0;
    while i < pads.len()
        invariant
            0 <= i <= pads@.len(),
            spec_route_pad_index(pads@, step as int, route_mask) == route_pad_index_from(
                pads@,
                step as int,
                route_mask,
                i as int,
            ),
        decreases pads@.len() - i,
    {
        if pads[i].step == step && pads[i].route_mask & route_mask != 0 {
            return Some(i);
        }
        i = i + 1;
    }
    None
}

/// A step with a pad on the route has its first such pad found.
pub proof fn lemma_route_pad_found(pads: Seq<BhopPadSlot>, step: int, route_mask: u8)
    requires
        route_pad_at(pads, route_mask, step),
    ensures
        spec_route_pad_index(pads, step, route_mask) is Some,
{
    lemma_route_pad_index_from(pads, step, route_mask, 0);
    let j = choose|j: int|
        0 <= j < pads.len() && #[trigger] pads[j].step == step && pads[j].route_mask & route_mask
            != 0;
    if spec_route_pad_index(pads, step, route_mask) is None {
        assert(!on_route_at(pads[j], step, route_mask));
    }
}

/// Law: along a route that has a pad at every step, the spacing rules check
/// every pair of consecutive steps, once each, in order.
pub proof fn lemma_route_checks_cover_route(pads: Seq<BhopPadSlot>, route_mask: u8, steps: int)
    requires
        1 <= steps,
        steps <= usize::MAX,
        forall|step: int| 0 <= step < steps ==> #[trigger] route_pad_at(pads, route_mask, step),
    ensures
        route_checks_upto(pads, route_mask, steps).len() == steps - 1,
        forall|i: int|
            0 <= i < steps - 1 ==> (#[trigger] route_checks_upto(pads, route_mask, steps)[i]).earlier_step
                == i && route_checks_upto(pads, route_mask, steps)[i].later_step == i + 1
                && route_checks_upto(pads, route_mask, steps)[i].kind
                == BhopSpacingIssueKind::RouteGap,
        pads.len() <= usize::MAX ==> forall|i: int|
            0 <= i < steps - 1 ==> {
                let check = #[trigger] route_checks_upto(pads, route_mask, steps)[i];
                &&& 0 <= check.left < pads.len()
                &&& 0 <= check.right < pads.len()
                &&& on_route_at(pads[check.left as int], i, route_mask)
                &&& on_route_at(pads[check.right as int], i + 1, route_mask)
            },
    decreases steps,
{
    if steps > 1 {
        lemma_route_checks_cover_route(pads, route_mask, steps - 1);
        assert(route_pad_at(pads, route_mask, steps - 2));
        assert(route_pad_at(pads, route_mask, steps - 1));
        lemma_route_pad_found(pads, steps - 2, route_mask);
        lemma_route_pad_found(pads, steps - 1, route_mask);
        lemma_route_pad_index_from(pads, steps - 2, route_mask, 0);
        lemma_route_pad_index_from(pads, steps - 1, route_mask, 0);
        let prev = route_checks_upto(pads, route_mask, steps - 1);
        let added = route_check_at(pads, route_mask, steps - 1);
        assert(added.len() == 1);
        assert forall|i: int| pads.len() <= usize::MAX && 0 <= i < steps - 1 implies {
            let check = #[trigger] route_checks_upto(pads, route_mask, steps)[i];
            &&& 0 <= check.left < pads.len()
            &&& 0 <= check.right < pads.len()
            &&& on_route_at(pads[check.left as int], i, route_mask)
            &&& on_route_at(pads[check.right as int], i + 1, route_mask)
        } by {
            if i < steps - 2 {
                assert(route_checks_upto(pads, route_mask, steps)[i] == prev[i]);
            } else {
                assert(route_checks_upto(pads, route_mask, steps)[i] == added[0]);
            }
        }
        assert forall|i: int| 0 <= i < steps - 1 implies (#[trigger] route_checks_upto(
            pads,
            route_mask,
            steps,
        )[i]).earlier_step == i && route_checks_upto(pads, route_mask, steps)[i].later_step == i + 1
            && route_checks_upto(pads, route_mask, steps)[i].kind == BhopSpacingIssueKind::RouteGap by {
            if i < steps - 2 {
                assert(route_checks_upto(pads, route_mask, steps)[i] == prev[i]);
            } else {
                assert(route_checks_upto(pads, route_mask, steps)[i] == added[0]);
            }
        }
    } else {
        assert(route_checks_upto(pads, route_mask, steps).len() == 0);
    }
}

/// Law: whatever the pattern, the spacing rules first check the safe route:
/// when every step below `pad_count` has a pad on the safe route, the first
/// `pad_count - 1` checks are route-gap checks, the `i`-th between a safe-route
/// pad of step `i` and one of step `i + 1`.
pub proof fn lemma_safe_route_checked_first(
    pattern: BhopPattern,
    pad_count: usize,
    pads: Seq<BhopPadSlot>,
)
    requires
        pad_count >= 1,
        pads.len() <= usize::MAX,
        route_complete(pads, SAFE_ROUTE, pad_count),
    ensures
        spec_spacing_checks(pattern, pad_count, pads).len() >= pad_count - 1,
        forall|i: int|
            0 <= i < pad_count - 1 ==> {
                let check = #[trigger] spec_spacing_checks(pattern, pad_count, pads)[i];
                &&& check.kind == BhopSpacingIssueKind::RouteGap
                &&& check.earlier_step == i
                &&& check.later_step == i + 1
                &&& 0 <= check.left < pads.len()
                &&& 0 <= check.right < pads.len()
                &&& pads[check.left as int].step == i
                &&& pads[check.left as int].route_mask & SAFE_ROUTE != 0
                &&& pads[check.right as int].step == i + 1
                &&& pads[check.right as int].route_mask & SAFE_ROUTE != 0
            },
{
    let n = pad_count as int;
    assert forall|step: int| 0 <= step < n implies #[trigger] route_pad_at(pads, SAFE_ROUTE, step) by {
    }
    lemma_route_checks_cover_route(pads, SAFE_ROUTE, n);
    let safe = route_checks_upto(pads, SAFE_ROUTE, n);
    let masks = spec_route_masks(pattern);
    reveal_with_fuel(route_checks, 3);
    let routes = route_checks(pads, masks, n);
    if pattern == BhopPattern::SplitMerge {
        assert(masks.drop_last() =~= seq![SAFE_ROUTE]);
        assert(masks.drop_last().drop_last() =~= Seq::<u8>::empty());
        assert(route_checks(pads, masks.drop_last(), n) =~= safe);
    } else {
        assert(masks.drop_last() =~= Seq::<u8>::empty());
        assert(routes =~= safe);
    }
    let rest = route_checks(pads, masks, n).skip(safe.len() as int);
    assert(routes =~= safe + rest);
    let all = spec_spacing_checks(pattern, pad_count, pads);
    assert forall|i: int| 0 <= i < n - 1 implies #[trigger] all[i] == safe[i] by {
        assert(all[i] == routes[i]);
    }
}

/// Law: the pads that any pattern lays are checked pairwise along the whole
/// safe route: one route check per pair of consecutive steps.
pub proof fn lemma_built_pads_checked_along_route(profile: BhopProfile, state: u64)
    requires
        profile.pad_count > 0,
    ensures
        route_checks_upto(slots_for(pad_shapes(profile), state), SAFE_ROUTE, profile.pad_count as int).len()
            == profile.pad_count - 1,
{
    lemma_bhop_pads_playable(profile, state);
    let pads = slots_for(pad_shapes(profile), state);
    assert forall|step: int| 0 <= step < profile.pad_count implies #[trigger] route_pad_at(
        pads,
        SAFE_ROUTE,
        step,
    ) by {}
    lemma_route_checks_cover_route(pads, SAFE_ROUTE, profile.pad_count as int);
}

/// The route check between steps `step - 1` and `step` on route `route_mask`:
/// none when either step has no pad on the route.
pub open spec fn route_check_at(pads: Seq<BhopPadSlot>, route_mask: u8, step: int) -> Seq<
    BhopSpacingCheck,
> {
    match (
        spec_route_pad_index(pads, step - 1, route_mask),
        spec_route_pad_index(pads, step, route_mask),
    ) {
        (Some(prev), Some(curr)) => seq![
            BhopSpacingCheck {
                kind: BhopSpacingIssueKind::RouteGap,
                left: prev as usize,
                right: curr as usize,
                earlier_step: (step - 1) as usize,
                later_step: step as usize,
            },
        ],
        _ => Seq::empty(),
    }
}

/// The route checks of steps `1..steps` on one route.
pub open spec fn route_checks_upto(pads: Seq<BhopPadSlot>, route_mask: u8, steps: int) -> Seq<
    BhopSpacingCheck,
>
    decreases steps,
{
    if steps <= 1 {
        Seq::empty()
    } else {
        route_checks_upto(pads, route_mask, steps - 1) + route_check_at(pads, route_mask, steps - 1)
    }
}

/// The route checks of every route in `masks`, route after route.
pub open spec fn route_checks(pads: Seq<BhopPadSlot>, masks: Seq<u8>, pad_count: int) -> Seq<
    BhopSpacingCheck,
>
    decreases masks.len(),
{
    if masks.len() == 0 {
        Seq::empty()
    } else {
        route_checks(pads, masks.drop_last(), pad_count) + route_checks_upto(
            pads,
            masks.last(),
            pad_count,
        )
    }
}

/// The indices, in order, of the pads among the first `upto` that lie at `step`.
pub open spec fn step_indices_upto(pads: Seq<BhopPadSlot>, step: int, upto: int) -> Seq<usize>
    decreases upto,
{
    if upto <= 0 {
        Seq::empty()
    } else if pads[upto - 1].step == step {
        step_indices_upto(pads, step, upto - 1).push((upto - 1) as usize)
    } else {
        step_indices_upto(pads, step, upto - 1)
    }
}

/// The branch checks that pair the `a`-th pad of a step with each later pad of
/// the same step.
pub open spec fn branch_row(indices: Seq<usize>, step: int, a: int) -> Seq<BhopSpacingCheck> {
    Seq::new(
        (indices.len() - a - 1) as nat,
        |k: int|
            BhopSpacingCheck {
                kind: BhopSpacingIssueKind::BranchGap,
                left: indices[a],
                right: indices[a + 1 + k],
                earlier_step: step as usize,
                later_step: step as usize,
            },
    )
}

/// The branch checks of the first `rows` pads of a step.
pub open spec fn branch_rows(indices: Seq<usize>, step: int, rows: int) -> Seq<BhopSpacingCheck>
    decreases rows,
{
    if rows <= 0 {
        Seq::empty()
    } else {
        branch_rows(indices, step, rows - 1) + branch_row(indices, step, rows - 1)
    }
}

/// The branch checks of every pair of pads on one step, for steps `0..steps`.
pub open spec fn branch_checks(pads: Seq<BhopPadSlot>, steps: int) -> Seq<BhopSpacingCheck>
    decreases steps,
{
    if steps <= 0 {
        Seq::empty()
    } else {
        let indices = step_indices_upto(pads, steps - 1, pads.len() as int);
        branch_checks(pads, steps - 1) + branch_rows(indices, steps - 1, indices.len() as int)
    }
}

/// Two pads that the overlap rule leaves to the other rules: pads of the same
/// step, and pads of consecutive steps that share a route.
pub open spec fn overlap_exempt(left: BhopPadSlot, right: BhopPadSlot) -> bool {
    ||| ((left.step + 1 == right.step || right.step + 1 == left.step) && left.route_mask
        & right.route_mask != 0)
    ||| left.step == right.step
}

pub open spec fn overlap_check(pads: Seq<BhopPadSlot>, left: int, right: int) -> BhopSpacingCheck {
    BhopSpacingCheck {
        kind: BhopSpacingIssueKind::Overlap,
        left: left as usize,
        right: right as usize,
        earlier_step: if pads[left].step <= pads[right].step {
            pads[left].step
        } else {
            pads[right].step
        },
        later_step: if pads[left].step >= pads[right].step {
            pads[left].step
        } else {
            pads[right].step
        },
    }
}

/// The overlap checks pairing pad `left` with pads `left + 1..upto`.
pub open spec fn overlap_row(pads: Seq<BhopPadSlot>, left: int, upto: int) -> Seq<BhopSpacingCheck>
    decreases upto - left,
{
    if upto <= left + 1 {
        Seq::empty()
    } else if overlap_exempt(pads[left], pads[upto - 1]) {
        overlap_row(pads, left, upto - 1)
    } else {
        overlap_row(pads, left, upto - 1).push(overlap_check(pads, left, upto - 1))
    }
}

/// The overlap checks of the first `rows` pads against every later pad.
pub open spec fn overlap_rows(pads: Seq<BhopPadSlot>, rows: int) -> Seq<BhopSpacingCheck>
    decreases rows,
{
    if rows <= 0 {
        Seq::empty()
    } else {
        overlap_rows(pads, rows - 1) + overlap_row(pads, rows - 1, pads.len() as int)
    }
}

/// Every pair the spacing rules examine: the route checks route by route,
/// then the branch checks step by step, then the overlap checks.
pub open spec fn spec_spacing_checks(
    pattern: BhopPattern,
    pad_count: usize,
    pads: Seq<BhopPadSlot>,
) -> Seq<BhopSpacingCheck> {
    route_checks(pads, spec_route_masks(pattern), pad_count as int) + branch_checks(
        pads,
        pad_count as int,
    ) + overlap_rows(pads, pads.len() as int)
}

fn append_route_checks(
    checks: &mut Vec<BhopSpacingCheck>,
    pads: &[BhopPadSlot],
    route_mask: u8,
    pad_count: usize,
)
    ensures
        final(checks)@ == old(checks)@ + route_checks_upto(pads@, route_mask, pad_count as int),
{
    let ghost start = checks@;
    let mut step: usize = 1;
    if pad_count <= 1 {
        assert(route_checks_upto(pads@, route_mask, pad_count as int) =~= Seq::empty());
        assert(start + Seq::<BhopSpacingCheck>::empty() =~= start);
        return;
    }
    assert(start + route_checks_upto(pads@, route_mask, 1) =~= start);
    while step < pad_count
        invariant
            1 <= step <= pad_count,
            checks@ == start + route_checks_upto(pads@, route_mask, step as int),
        decreases pad_count - step,
    {
        let prev = route_pad_index_for_step(pads, step - 1, route_mask);
        let curr = route_pad_index_for_step(pads, step, route_mask);
        let ghost added = route_check_at(pads@, route_mask, step as int);
        match (prev, curr) {
            (Some(prev_index), Some(curr_index)) => {
                checks.push(
                    BhopSpacingCheck {
                        kind: BhopSpacingIssueKind::RouteGap,
                        left: prev_index,
                        right: curr_index,
                        earlier_step: step - 1,
                        later_step: step,
                    },
                );
            },
            _ => {},
        }
        assert(checks@ =~= start + route_checks_upto(pads@, route_mask, step as int) + added);
        assert(route_checks_upto(pads@, route_mask, step + 1) == route_checks_upto(
            pads@,
            route_mask,
            step as int,
        ) + added);
        assert(checks@ =~= start + route_checks_upto(pads@, route_mask, step + 1));
        step = step + 1;
    }
}

fn step_indices(pads: &[BhopPadSlot], step: usize) -> (indices: Vec<usize>)
    ensures
        indices@ == step_indices_upto(pads@, step as int, pads@.len() as int),
        forall|k: int| 0 <= k < indices@.len() ==> #[trigger] indices@[k] < pads@.len(),
{
    let mut indices: Vec<usize> = Vec::new();
    let mut i: usize = 0;
    while i < pads.len()
        invariant
            0 <= i <= pads@.len(),
            indices@ == step_indices_upto(pads@, step as int, i as int),
            forall|k: int| 0 <= k < indices@.len() ==> #[trigger] indices@[k] < i,
        decreases pads@.len() - i,
    {
        if pads[i].step == step {
            indices.push(i);
        }
        i = i + 1;
    }
    indices
}

fn append_branch_checks(checks: &mut Vec<BhopSpacingCheck>, pads: &[BhopPadSlot], step: usize)
    ensures
        final(checks)@ == old(checks)@ + branch_rows(
            step_indices_upto(pads@, step as int, pads@.len() as int),
            step as int,
            step_indices_upto(pads@, step as int, pads@.len() as int).len() as int,
        ),
{
    let indices = step_indices(pads, step);
    let ghost start = checks@;
    let n = indices.len();
    let mut a: usize = 0;
    assert(start + branch_rows(indices@, step as int, 0) =~= start);
    while a < n
        invariant
            n == indices@.len(),
            0 <= a <= n,
            checks@ == start + branch_rows(indices@, step as int, a as int),
        decreases n - a,
    {
        let ghost before = checks@;
        let mut b: usize = a + 1;
        assert(branch_row(indices@, step as int, a as int).take(0) =~= Seq::empty());
        assert(before + branch_row(indices@, step as int, a as int).take(0) =~= before);
        while b < n
            invariant
                n == indices@.len(),
                a < n,
                a + 1 <= b <= n,
                checks@ == before + branch_row(indices@, step as int, a as int).take(
                    (b - a - 1) as int,
                ),
            decreases n - b,
        {
            checks.push(
                BhopSpacingCheck {
                    kind: BhopSpacingIssueKind::BranchGap,
                    left: indices[a],
                    right: indices[b],
                    earlier_step: step,
                    later_step: step,
                },
            );
            let ghost row = branch_row(indices@, step as int, a as int);
            assert(row.take((b - a - 1) as int).push(row[(b - a - 1) as int]) =~= row.take(
                (b - a) as int,
            ));
            assert(checks@ =~= before + row.take((b - a) as int));
            b = b + 1;
        }
        assert(branch_row(indices@, step as int, a as int).take((n - a - 1) as int)
            =~= branch_row(indices@, step as int, a as int));
        assert(checks@ =~= start + branch_rows(indices@, step as int, (a + 1) as int));
        a = a + 1;
    }
}

fn append_overlap_row(checks: &mut Vec<BhopSpacingCheck>, pads: &[BhopPadSlot], left: usize)
    requires
        left < pads@.len(),
    ensures
        final(checks)@ == old(checks)@ + overlap_row(pads@, left as int, pads@.len() as int),
{
    let ghost start = checks@;
    let n = pads.len();
    let mut right: usize = left + 1;
    assert(start + overlap_row(pads@, left as int, right as int) =~= start);
    while right < pads.len()
        invariant
            left < pads@.len(),
            left + 1 <= right <= pads@.len(),
            checks@ == start + overlap_row(pads@, left as int, right as int),
        decreases pads@.len() - right,
    {
        let left_pad = pads[left];
        let right_pad = pads[right];
        let adjacent = (left_pad.step < right_pad.step && right_pad.step - left_pad.step == 1)
            || (right_pad.step < left_pad.step && left_pad.step - right_pad.step == 1);
        let adjacent_same_route = adjacent && left_pad.route_mask & right_pad.route_mask != 0;
        let branch_pair = left_pad.step == right_pad.step;
        if !(adjacent_same_route || branch_pair) {
            let earlier = if left_pad.step <= right_pad.step {
                left_pad.step
            } else {
                right_pad.step
            };
            let later = if left_pad.step >= right_pad.step {
                left_pad.step
            } else {
                right_pad.step
            };
            checks.push(
                BhopSpacingCheck {
                    kind: BhopSpacingIssueKind::Overlap,
                    left,
                    right,
                    earlier_step: earlier,
                    later_step: later,
                },
            );
        }
        assert(checks@ =~= start + overlap_row(pads@, left as int, right + 1));
        right = right + 1;
    }
}

/// Lists the pairs of pads that the spacing rules examine, in the order in
/// which they are examined.
pub fn bhop_spacing_checks(pattern: BhopPattern, pad_count: usize, pads: &[BhopPadSlot]) -> (checks:
    Vec<BhopSpacingCheck>)
    ensures
        checks@ == spec_spacing_checks(pattern, pad_count, pads@),
{
    let mut checks: Vec<BhopSpacingCheck> = Vec::new();
    let masks = bhop_route_masks(pattern);
    let mut m: usize = 0;
    assert(masks@.take(0) =~= Seq::<u8>::empty());
    assert(checks@ =~= route_checks(pads@, masks@.take(0), pad_count as int));
    while m < masks.len()
        invariant
            0 <= m <= masks@.len(),
            masks@ == spec_route_masks(pattern),
            checks@ == route_checks(pads@, masks@.take(m as int), pad_count as int),
        decreases masks@.len() - m,
    {
        append_route_checks(&mut checks, pads, masks[m], pad_count);
        assert(masks@.take(m + 1).drop_last() =~= masks@.take(m as int));
        assert(masks@.take(m + 1).last() == masks@[m as int]);
        m = m + 1;
    }
    assert(masks@.take(masks@.len() as int) =~= masks@);
    let ghost routes = checks@;
    let mut step: usize = 0;
    assert(routes + branch_checks(pads@, 0) =~= routes);
    while step < pad_count
        invariant
            0 <= step <= pad_count,
            checks@ == routes + branch_checks(pads@, step as int),
        decreases pad_count - step,
    {
        append_branch_checks(&mut checks, pads, step);
        assert(checks@ =~= routes + branch_checks(pads@, step + 1));
        step = step + 1;
    }
    let ghost branches = checks@;
    let mut left: usize = 0;
    assert(branches + overlap_rows(pads@, 0) =~= branches);
    while left < pads.len()
        invariant
            0 <= left <= pads@.len(),
            checks@ == branches + overlap_rows(pads@, left as int),
        decreases pads@.len() - left,
    {
        append_overlap_row(&mut checks, pads, left);
        assert(checks@ =~= branches + overlap_rows(pads@, left + 1));
        left = left + 1;
    }
    checks
}

/// The first of the listed pads, from the `from`-th on, whose route bits are
/// exactly `route_mask`.
pub open spec fn first_with_route(
    pads: Seq<BhopPadSlot>,
    indices: Seq<usize>,
    route_mask: u8,
    from: int,
) -> Option<usize>
    decreases indices.len() - from,
{
    if from < 0 || from >= indices.len() {
        None
    } else if pads[indices[from] as int].route_mask == route_mask {
        Some(indices[from])
    } else {
        first_with_route(pads, indices, route_mask, from + 1)
    }
}

/// The safe and the risky pad of a split step: none when the step has fewer
/// than two pads or lacks either lane.
pub open spec fn spec_split_merge_pair(pads: Seq<BhopPadSlot>, step: int) -> Option<(usize, usize)> {
    let indices = step_indices_upto(pads, step, pads.len() as int);
    if indices.len() < 2 {
        None
    } else {
        match (
            first_with_route(pads, indices, SAFE_ROUTE, 0),
            first_with_route(pads, indices, RISK_ROUTE, 0),
        ) {
            (Some(safe), Some(risk)) => Some((safe, risk)),
            _ => None,
        }
    }
}

fn find_with_route(pads: &[BhopPadSlot], indices: &Vec<usize>, route_mask: u8) -> (found: Option<
    usize,
>)
    requires
        forall|k: int| 0 <= k < indices@.len() ==> #[trigger] indices@[k] < pads@.len(),
    ensures
        found == first_with_route(pads@, indices@, route_mask, 0),
{
    let mut k: usize = 0;
    while k < indices.len()
        invariant
            0 <= k <= indices@.len(),
            forall|j: int| 0 <= j < indices@.len() ==> #[trigger] indices@[j] < pads@.len(),
            first_with_route(pads@, indices@, route_mask, 0) == first_with_route(
                pads@,
                indices@,
                route_mask,
                k as int,
            ),
        decreases indices@.len() - k,
    {
        let index = indices[k];
        if pads[index].route_mask == route_mask {
            return Some(index);
        }
        k = k + 1;
    }
    None
}

/// The safe and the risky pad of step `step`, which are pushed apart to the
/// two sides of the route of a split-merge section.
pub fn split_merge_pair(pads: &[BhopPadSlot], step: usize) -> (pair: Option<(usize, usize)>)
    ensures
        pair == spec_split_merge_pair(pads@, step as int),
        pair matches Some((safe, risk)) ==> safe < pads@.len() && risk < pads@.len()
            && pads@[safe as int].route_mask == SAFE_ROUTE && pads@[risk as int].route_mask
            == RISK_ROUTE,
{
    let indices = step_indices(pads, step);
    if indices.len() < 2 {
        return None;
    }
    let safe = find_with_route(pads, &indices, SAFE_ROUTE);
    let risk = find_with_route(pads, &indices, RISK_ROUTE);
    proof {
        lemma_first_with_route(pads@, indices@, SAFE_ROUTE, 0);
        lemma_first_with_route(pads@, indices@, RISK_ROUTE, 0);
    }
    match (safe, risk) {
        (Some(safe_index), Some(risk_index)) => Some((safe_index, risk_index)),
        _ => None,
    }
}

proof fn lemma_first_with_route(
    pads: Seq<BhopPadSlot>,
    indices: Seq<usize>,
    route_mask: u8,
    from: int,
)
    requires
        0 <= from,
        forall|k: int| 0 <= k < indices.len() ==> #[trigger] indices[k] < pads.len(),
    ensures
        first_with_route(pads, indices, route_mask, from) matches Some(i) ==> i < pads.len()
            && pads[i as int].route_mask == route_mask,
    decreases indices.len() - from,
{
    if from < indices.len() && pads[indices[from] as int].route_mask != route_mask {
        lemma_first_with_route(pads, indices, route_mask, from + 1);
    }
}

/// Some check of `checks` equals `check`.
pub open spec fn lists_check(checks: Seq<BhopSpacingCheck>, check: BhopSpacingCheck) -> bool {
    exists|i: int| 0 <= i < checks.len() && #[trigger] checks[i] == check
}

proof fn lemma_lists_check_append(a: Seq<BhopSpacingCheck>, b: Seq<BhopSpacingCheck>, check: BhopSpacingCheck)
    ensures
        lists_check(a, check) ==> lists_check(a + b, check),
        lists_check(b, check) ==> lists_check(a + b, check),
{
    if lists_check(a, check) {
        let i = choose|i: int| 0 <= i < a.len() && #[trigger] a[i] == check;
        assert((a + b)[i] == check);
    }
    if lists_check(b, check) {
        let i = choose|i: int| 0 <= i < b.len() && #[trigger] b[i] == check;
        assert((a + b)[a.len() + i] == check);
    }
}

proof fn lemma_overlap_row_lists(pads: Seq<BhopPadSlot>, left: int, upto: int, right: int)
    requires
        0 <= left < right < upto <= pads.len(),
        !overlap_exempt(pads[left], pads[right]),
    ensures
        lists_check(overlap_row(pads, left, upto), overlap_check(pads, left, right)),
    decreases upto - left,
{
    let shorter = overlap_row(pads, left, upto - 1);
    if right == upto - 1 {
        assert(overlap_row(pads, left, upto) == shorter.push(overlap_check(pads, left, right)));
        assert(overlap_row(pads, left, upto)[shorter.len() as int] == overlap_check(pads, left, right));
    } else {
        lemma_overlap_row_lists(pads, left, upto - 1, right);
        let i = choose|i: int| 0 <= i < shorter.len() && #[trigger] shorter[i] == overlap_check(
            pads,
            left,
            right,
        );
        assert(overlap_row(pads, left, upto)[i] == shorter[i]);
    }
}

proof fn lemma_overlap_rows_lists(pads: Seq<BhopPadSlot>, rows: int, left: int, right: int)
    requires
        0 <= left < rows,
        left < right < pads.len(),
        !overlap_exempt(pads[left], pads[right]),
    ensures
        lists_check(overlap_rows(pads, rows), overlap_check(pads, left, right)),
    decreases rows,
{
    if left == rows - 1 {
        lemma_overlap_row_lists(pads, left, pads.len() as int, right);
    } else {
        lemma_overlap_rows_lists(pads, rows - 1, left, right);
    }
    lemma_lists_check_append(
        overlap_rows(pads, rows - 1),
        overlap_row(pads, rows - 1, pads.len() as int),
        overlap_check(pads, left, right),
    );
}

/// Law: any two pads on steps that are neither equal nor consecutive, and any
/// two pads on consecutive steps that share no route, are examined for
/// overlap: the checks hold an overlap check of the earlier-listed pad against
/// the later one, from the lower step to the higher.
pub proof fn lemma_distant_pads_checked_for_overlap(
    pattern: BhopPattern,
    pad_count: usize,
    pads: Seq<BhopPadSlot>,
    left: int,
    right: int,
)
    requires
        0 <= left < right < pads.len(),
        pads[left].step != pads[right].step,
        pads[left].step + 1 == pads[right].step || pads[right].step + 1 == pads[left].step ==> pads[left].route_mask
            & pads[right].route_mask == 0,
    ensures
        lists_check(
            spec_spacing_checks(pattern, pad_count, pads),
            BhopSpacingCheck {
                kind: BhopSpacingIssueKind::Overlap,
                left: left as usize,
                right: right as usize,
                earlier_step: if pads[left].step < pads[right].step {
                    pads[left].step
                } else {
                    pads[right].step
                },
                later_step: if pads[left].step < pads[right].step {
                    pads[right].step
                } else {
                    pads[left].step
                },
            },
        ),
{
    lemma_overlap_rows_lists(pads, pads.len() as int, left, right);
    let check = overlap_check(pads, left, right);
    lemma_lists_check_append(
        route_checks(pads, spec_route_masks(pattern), pad_count as int) + branch_checks(
            pads,
            pad_count as int,
        ),
        overlap_rows(pads, pads.len() as int),
        check,
    );
}

/// The pads at a step are listed in increasing order, each below `upto`, and
/// every pad at the step below `upto` is listed.
proof fn lemma_step_indices_upto(pads: Seq<BhopPadSlot>, step: int, upto: int)
    requires
        0 <= upto <= pads.len(),
        pads.len() <= usize::MAX,
    ensures
        forall|a: int|
            0 <= a < step_indices_upto(pads, step, upto).len() ==> #[trigger] step_indices_upto(
                pads,
                step,
                upto,
            )[a] < upto,
        forall|a: int, b: int|
            0 <= a < b < step_indices_upto(pads, step, upto).len() ==> #[trigger] step_indices_upto(
                pads,
                step,
                upto,
            )[a] < #[trigger] step_indices_upto(pads, step, upto)[b],
        forall|j: int|
            0 <= j < upto && pads[j].step == step ==> exists|a: int|
                0 <= a < step_indices_upto(pads, step, upto).len() && #[trigger] step_indices_upto(
                    pads,
                    step,
                    upto,
                )[a] == j,
    decreases upto,
{
    if upto > 0 {
        lemma_step_indices_upto(pads, step, upto - 1);
        let prev = step_indices_upto(pads, step, upto - 1);
        let all = step_indices_upto(pads, step, upto);
        if pads[upto - 1].step == step {
            assert(all == prev.push((upto - 1) as usize));
            assert forall|j: int| 0 <= j < upto && pads[j].step == step implies exists|a: int|
                0 <= a < all.len() && #[trigger] all[a] == j by {
                if j < upto - 1 {
                    let a = choose|a: int| 0 <= a < prev.len() && #[trigger] prev[a] == j;
                    assert(all[a] == prev[a]);
                } else {
                    assert(all[prev.len() as int] == j);
                }
            }
        }
    }
}

proof fn lemma_branch_rows_list(indices: Seq<usize>, step: int, rows: int, a: int, b: int)
    requires
        0 <= a < rows,
        a < b < indices.len(),
    ensures
        lists_check(
            branch_rows(indices, step, rows),
            BhopSpacingCheck {
                kind: BhopSpacingIssueKind::BranchGap,
                left: indices[a],
                right: indices[b],
                earlier_step: step as usize,
                later_step: step as usize,
            },
        ),
    decreases rows,
{
    let check = BhopSpacingCheck {
        kind: BhopSpacingIssueKind::BranchGap,
        left: indices[a],
        right: indices[b],
        earlier_step: step as usize,
        later_step: step as usize,
    };
    let row = branch_row(indices, step, rows - 1);
    if a == rows - 1 {
        assert(row[b - a - 1] == check);
        assert(lists_check(row, check));
    } else {
        lemma_branch_rows_list(indices, step, rows - 1, a, b);
    }
    lemma_lists_check_append(branch_rows(indices, step, rows - 1), row, check);
}

proof fn lemma_branch_checks_list(pads: Seq<BhopPadSlot>, steps: int, step: int, a: int, b: int)
    requires
        0 <= step < steps,
        0 <= a < b < step_indices_upto(pads, step, pads.len() as int).len(),
    ensures
        lists_check(
            branch_checks(pads, steps),
            BhopSpacingCheck {
                kind: BhopSpacingIssueKind::BranchGap,
                left: step_indices_upto(pads, step, pads.len() as int)[a],
                right: step_indices_upto(pads, step, pads.len() as int)[b],
                earlier_step: step as usize,
                later_step: step as usize,
            },
        ),
    decreases steps,
{
    let indices = step_indices_upto(pads, steps - 1, pads.len() as int);
    let check = BhopSpacingCheck {
        kind: BhopSpacingIssueKind::BranchGap,
        left: step_indices_upto(pads, step, pads.len() as int)[a],
        right: step_indices_upto(pads, step, pads.len() as int)[b],
        earlier_step: step as usize,
        later_step: step as usize,
    };
    if step == steps - 1 {
        lemma_branch_rows_list(indices, step, indices.len() as int, a, b);
    } else {
        lemma_branch_checks_list(pads, steps - 1, step, a, b);
    }
    lemma_lists_check_append(
        branch_checks(pads, steps - 1),
        branch_rows(indices, steps - 1, indices.len() as int),
        check,
    );
}

/// Law: any two pads on the same step below `pad_count` (the two lanes of a
/// split step) are examined for their branch gap: the checks hold a branch
/// check of the earlier-listed pad against the later one at that step.
pub proof fn lemma_same_step_pads_checked_for_branch_gap(
    pattern: BhopPattern,
    pad_count: usize,
    pads: Seq<BhopPadSlot>,
    left: int,
    right: int,
)
    requires
        pads.len() <= usize::MAX,
        0 <= left < right < pads.len(),
        pads[left].step == pads[right].step,
        pads[left].step < pad_count,
    ensures
        lists_check(
            spec_spacing_checks(pattern, pad_count, pads),
            BhopSpacingCheck {
                kind: BhopSpacingIssueKind::BranchGap,
                left: left as usize,
                right: right as usize,
                earlier_step: pads[left].step,
                later_step: pads[left].step,
            },
        ),
{
    let step = pads[left].step as int;
    let n = pads.len() as int;
    lemma_step_indices_upto(pads, step, n);
    let indices = step_indices_upto(pads, step, n);
    let a = choose|a: int| 0 <= a < indices.len() && #[trigger] indices[a] == left;
    let b = choose|b: int| 0 <= b < indices.len() && #[trigger] indices[b] == right;
    if b <= a {
        if b < a {
            assert(indices[b] < indices[a]);
        }
        assert(false);
    }
    lemma_branch_checks_list(pads, pad_count as int, step, a, b);
    let check = BhopSpacingCheck {
        kind: BhopSpacingIssueKind::BranchGap,
        left: left as usize,
        right: right as usize,
        earlier_step: pads[left].step,
        later_step: pads[left].step,
    };
    let routes = route_checks(pads, spec_route_masks(pattern), pad_count as int);
    lemma_lists_check_append(routes, branch_checks(pads, pad_count as int), check);
    lemma_lists_check_append(
        routes + branch_checks(pads, pad_count as int),
        overlap_rows(pads, n),
        check,
    );
}

} // verus!
