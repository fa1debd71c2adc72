//! The run blueprint: an ever-growing chain of rooms joined by segments whose
//! kinds alternate between a square bunny-hop section and a surf ramp.
//!
//! The blueprint keeps what decides the course's structure: the rooms and
//! segments, the kind of the next segment, the random stream, and for every
//! room after the first the four samples that place it relative to the room
//! before it (turn, gap, drop and lateral jitter). Turning those samples into
//! world positions is floating-point work done by the caller.

use vstd::prelude::*;

use crate::rng::{advance, draw, lemma_advance_add, unit_sample, RunRng, GOLDEN_GAMMA};

verus! {

/// Rooms in a freshly built blueprint.
pub const INITIAL_ROOM_COUNT: usize = 16;

#[derive(Clone, Copy, PartialEq, Eq, Debug, Structural)]
pub enum SegmentKind {
    SurfRamp,
    SquareBhop,
}

/// The four unit samples that place a room relative to the room before it.
#[derive(Clone, Copy, PartialEq, Eq, Debug, Structural)]
pub struct RoomDraws {
    pub turn: u32,
    pub gap: u32,
    pub drop: u32,
    pub lateral: u32,
}

#[derive(Clone, Copy, PartialEq, Eq, Debug)]
pub struct RoomPlan {
    pub index: usize,
    /// `None` for the spawn room, which sits at a fixed place.
    pub draws: Option<RoomDraws>,
}

#[derive(Clone, Copy, PartialEq, Eq, Debug, Structural)]
pub struct SegmentPlan {
    pub index: usize,
    pub from: usize,
    pub to: usize,
    pub kind: SegmentKind,
    pub seed: u64,
}

#[derive(Clone, Debug)]
pub struct RunBlueprint {
    pub seed: u64,
    pub rooms: Vec<RoomPlan>,
    pub segments: Vec<SegmentPlan>,
    pub next_segment_kind: SegmentKind,
    pub generator: RunRng,
}

/// The mathematical content of a blueprint.
pub ghost struct BlueprintModel {
    pub seed: u64,
    pub rooms: Seq<RoomPlan>,
    pub segments: Seq<SegmentPlan>,
    pub next_segment_kind: SegmentKind,
    pub generator_state: u64,
}

impl View for RunBlueprint {
    type V = BlueprintModel;

    open spec fn view(&self) -> BlueprintModel {
        BlueprintModel {
            seed: self.seed,
            rooms: self.rooms@,
            segments: self.segments@,
            next_segment_kind: self.next_segment_kind,
            generator_state: self.generator.state,
        }
    }
}

pub open spec fn spec_next_segment_kind(kind: SegmentKind) -> SegmentKind {
    match kind {
        SegmentKind::SurfRamp => SegmentKind::SquareBhop,
        SegmentKind::SquareBhop => SegmentKind::SurfRamp,
    }
}

/// The segment kind `steps` segments after one of kind `kind`.
#[verifier::opaque]
pub open spec fn kind_after(kind: SegmentKind, steps: nat) -> SegmentKind {
    if steps % 2 == 0 {
        kind
    } else {
        spec_next_segment_kind(kind)
    }
}

/// The placement samples of the room appended from generator state `state`.
pub open spec fn room_draws_at(state: u64) -> RoomDraws {
    RoomDraws {
        turn: unit_sample(state, 0),
        gap: unit_sample(state, 1),
        drop: unit_sample(state, 2),
        lateral: unit_sample(state, 3),
    }
}

/// One room appended to the tail, together with the segment that reaches it.
#[verifier::opaque]
pub open spec fn append_one(m: BlueprintModel) -> BlueprintModel {
    let from_index = m.rooms.len() - 1;
    let next_index = m.rooms.len();
    BlueprintModel {
        seed: m.seed,
        rooms: m.rooms.push(
            RoomPlan { index: next_index as usize, draws: Some(room_draws_at(m.generator_state)) },
        ),
        segments: m.segments.push(
            SegmentPlan {
                index: m.segments.len() as usize,
                from: from_index as usize,
                to: next_index as usize,
                kind: m.next_segment_kind,
                seed: draw(m.generator_state, 4),
            },
        ),
        next_segment_kind: spec_next_segment_kind(m.next_segment_kind),
        generator_state: advance(m.generator_state, 5),
    }
}

/// `count` rooms appended one after another; nothing happens to a blueprint
/// without rooms.
pub open spec fn appended(m: BlueprintModel, count: nat) -> BlueprintModel
    decreases count,
{
    if count == 0 || m.rooms.len() == 0 {
        m
    } else {
        appended(append_one(m), (count - 1) as nat)
    }
}

/// The blueprint before any segment: the spawn room alone.
pub open spec fn initial_model(seed: u64) -> BlueprintModel {
    BlueprintModel {
        seed,
        rooms: seq![RoomPlan { index: 0, draws: None }],
        segments: Seq::empty(),
        next_segment_kind: SegmentKind::SquareBhop,
        generator_state: seed ^ GOLDEN_GAMMA,
    }
}

/// The blueprint built from a seed.
pub open spec fn spec_run_blueprint(seed: u64) -> BlueprintModel {
    appended(initial_model(seed), (INITIAL_ROOM_COUNT - 1) as nat)
}

/// A well-formed chain: rooms and segments are numbered by position, segment
/// `i` joins room `i` to room `i + 1`, and the kinds alternate starting from
/// `first_kind`, the next kind continuing the alternation.
pub open spec fn chain_well_formed(m: BlueprintModel, first_kind: SegmentKind) -> bool {
    &&& m.rooms.len() == m.segments.len() + 1
    &&& forall|i: int| #![trigger m.rooms[i]] 0 <= i < m.rooms.len() ==> m.rooms[i].index == i
    &&& forall|i: int|
        #![trigger m.segments[i]]
        0 <= i < m.segments.len() ==> {
            &&& m.segments[i].index == i
            &&& m.segments[i].from == i
            &&& m.segments[i].to == i + 1
            &&& m.segments[i].kind == kind_after(first_kind, i as nat)
        }
    &&& m.next_segment_kind == kind_after(first_kind, m.segments.len())
}

pub fn next_segment_kind(kind: SegmentKind) -> (next: SegmentKind)
    ensures
        next == spec_next_segment_kind(kind),
{
    match kind {
        SegmentKind::SurfRamp => SegmentKind::SquareBhop,
        SegmentKind::SquareBhop => SegmentKind::SurfRamp,
    }
}

impl RunBlueprint {
    pub fn first_segment(&self) -> (first: Option<&SegmentPlan>)
        ensures
            first == (if self.segments@.len() > 0 {
                Some(&self.segments@[0])
            } else {
                None
            }),
    {
        if self.segments.len() > 0 {
            Some(&self.segments[0])
        } else {
            None
        }
    }
}

/// Builds the blueprint of a run: the spawn room and fifteen more rooms, the
/// first segment a square bunny-hop section.
pub fn build_run_blueprint(seed: u64) -> (blueprint: RunBlueprint)
    ensures
        blueprint@ == spec_run_blueprint(seed),
        blueprint.seed == seed,
        blueprint.rooms@.len() == INITIAL_ROOM_COUNT,
        blueprint.segments@.len() == INITIAL_ROOM_COUNT - 1,
        chain_well_formed(blueprint@, SegmentKind::SquareBhop),
        blueprint.segments@[0].kind == SegmentKind::SquareBhop,
        blueprint.segments@[1].kind == SegmentKind::SurfRamp,
{
    let mut blueprint = RunBlueprint {
        seed,
        rooms: vec![RoomPlan { index: 0, draws: None }],
        segments: Vec::with_capacity(INITIAL_ROOM_COUNT - 1),
        next_segment_kind: SegmentKind::SquareBhop,
        generator: RunRng::new(seed),
    };
    assert(blueprint.rooms@ =~= seq![RoomPlan { index: 0, draws: None }]);
    assert(blueprint.segments@ =~= Seq::<SegmentPlan>::empty());
    assert(blueprint@ == initial_model(seed));
    append_run_blueprint(&mut blueprint, INITIAL_ROOM_COUNT - 1);
    proof {
        lemma_initial_well_formed(seed);
        lemma_appended_well_formed(initial_model(seed), SegmentKind::SquareBhop, 15);
        reveal(kind_after);
        assert(blueprint.segments@[0].kind == kind_after(SegmentKind::SquareBhop, 0));
        assert(blueprint.segments@[1].kind == kind_after(SegmentKind::SquareBhop, 1));
    }
    blueprint
}

/// Appends `additional_rooms` rooms to the tail of the blueprint, each joined
/// to the previous tail by a segment of the next kind.
pub fn append_run_blueprint(blueprint: &mut RunBlueprint, additional_rooms: usize)
    ensures
        final(blueprint)@ == appended(old(blueprint)@, additional_rooms as nat),
{
    if additional_rooms == 0 || blueprint.rooms.len() == 0 {
        return;
    }
    let mut done: usize = 0;
    while done < additional_rooms
        invariant
            0 <= done <= additional_rooms,
            blueprint.rooms@.len() > 0,
            blueprint@ == appended(old(blueprint)@, done as nat),
            appended(old(blueprint)@, additional_rooms as nat) == appended(
                blueprint@,
                (additional_rooms - done) as nat,
            ),
        decreases additional_rooms - done,
    {
        let ghost before = blueprint@;
        let ghost state = blueprint.generator.state;
        let from_index = blueprint.rooms.len() - 1;
        let kind = blueprint.next_segment_kind;
        let turn = blueprint.generator.next_unit_sample();
        let gap = blueprint.generator.next_unit_sample();
        let drop = blueprint.generator.next_unit_sample();
        let lateral = blueprint.generator.next_unit_sample();
        let next_index = blueprint.rooms.len();
        let seed = blueprint.generator.next_u64();
        proof {
            lemma_advance_add(state, 1, 1);
            lemma_advance_add(state, 2, 1);
            lemma_advance_add(state, 3, 1);
            lemma_advance_add(state, 4, 1);
            lemma_advance_add(state, 1, 2);
            lemma_advance_add(state, 2, 2);
            lemma_advance_add(state, 3, 2);
            lemma_advance_add(state, 4, 2);
        }
        let segment = SegmentPlan {
            index: blueprint.segments.len(),
            from: from_index,
            to: next_index,
            kind,
            seed,
        };
        blueprint.segments.push(segment);
        blueprint.rooms.push(
            RoomPlan { index: next_index, draws: Some(RoomDraws { turn, gap, drop, lateral }) },
        );
        blueprint.next_segment_kind = next_segment_kind(kind);
        proof {
            reveal(append_one);
            assert(blueprint@ == append_one(before));
            lemma_appended_succ(old(blueprint)@, done as nat);
            assert(appended(before, (additional_rooms - done) as nat) == appended(
                append_one(before),
                (additional_rooms - done - 1) as nat,
            ));
        }
        done = done + 1;
    }
}

/// Appending one more room after `count` is appending `count + 1`.
pub proof fn lemma_appended_succ(m: BlueprintModel, count: nat)
    requires
        m.rooms.len() > 0,
    ensures
        appended(m, count + 1) == append_one(appended(m, count)),
        appended(m, count).rooms.len() > 0,
    decreases count,
{
    reveal_with_fuel(appended, 2);
    lemma_append_one_shape(m);
    if count > 0 {
        lemma_appended_succ(append_one(m), (count - 1) as nat);
    }
}

/// Appending one room adds one room and one segment.
pub proof fn lemma_append_one_shape(m: BlueprintModel)
    ensures
        append_one(m).rooms == m.rooms.push(
            RoomPlan {
                index: m.rooms.len() as usize,
                draws: Some(room_draws_at(m.generator_state)),
            },
        ),
        append_one(m).segments == m.segments.push(
            SegmentPlan {
                index: m.segments.len() as usize,
                from: (m.rooms.len() - 1) as usize,
                to: m.rooms.len() as usize,
                kind: m.next_segment_kind,
                seed: draw(m.generator_state, 4),
            },
        ),
        append_one(m).next_segment_kind == spec_next_segment_kind(m.next_segment_kind),
        append_one(m).rooms.len() == m.rooms.len() + 1,
        append_one(m).segments.len() == m.segments.len() + 1,
        append_one(m).seed == m.seed,
{
    reveal(append_one);
}

/// Law: appending `a` rooms and then `b` more gives the same blueprint as
/// appending `a + b` rooms at once.
pub proof fn lemma_appended_compose(m: BlueprintModel, a: nat, b: nat)
    ensures
        appended(appended(m, a), b) == appended(m, a + b),
    decreases a,
{
    if a > 0 && m.rooms.len() > 0 {
        lemma_appended_compose(append_one(m), (a - 1) as nat, b);
    } else if m.rooms.len() == 0 {
        assert(appended(m, a) == m);
    }
}

/// The spawn room alone is a well-formed chain whose first segment will be a
/// square bunny-hop section.
pub proof fn lemma_initial_well_formed(seed: u64)
    ensures
        chain_well_formed(initial_model(seed), SegmentKind::SquareBhop),
{
    reveal(kind_after);
}

/// One more segment continues the alternation of kinds.
pub proof fn lemma_kind_after_succ(kind: SegmentKind, steps: nat)
    ensures
        kind_after(kind, steps + 1) == spec_next_segment_kind(kind_after(kind, steps)),
{
    reveal(kind_after);
    if steps % 2 == 0 {
        assert((steps + 1) % 2 == 1);
    } else {
        assert((steps + 1) % 2 == 0);
    }
    match kind {
        SegmentKind::SurfRamp => {},
        SegmentKind::SquareBhop => {},
    }
}

/// One more room keeps a chain well formed.
pub proof fn lemma_append_one_well_formed(m: BlueprintModel, first_kind: SegmentKind)
    requires
        chain_well_formed(m, first_kind),
        m.rooms.len() < usize::MAX,
    ensures
        chain_well_formed(append_one(m), first_kind),
        append_one(m).rooms.len() == m.rooms.len() + 1,
        append_one(m).rooms.take(m.rooms.len() as int) == m.rooms,
        append_one(m).segments.take(m.segments.len() as int) == m.segments,
{
    lemma_append_one_shape(m);
    let n = append_one(m);
    let len = m.segments.len();
    lemma_kind_after_succ(first_kind, len);
    assert(n.rooms.take(m.rooms.len() as int) =~= m.rooms);
    assert(n.segments.take(len as int) =~= m.segments);
    assert forall|i: int| #![trigger n.rooms[i]] 0 <= i < n.rooms.len() implies n.rooms[i].index == i by {
        if i < m.rooms.len() {
            assert(n.rooms[i] == m.rooms[i]);
        }
    }
    assert forall|i: int| #![trigger n.segments[i]] 0 <= i < n.segments.len() implies {
        &&& n.segments[i].index == i
        &&& n.segments[i].from == i
        &&& n.segments[i].to == i + 1
        &&& n.segments[i].kind == kind_after(first_kind, i as nat)
    } by {
        if i < len {
            assert(n.segments[i] == m.segments[i]);
            assert(m.segments[i].index == i);
            assert(m.segments[i].kind == kind_after(first_kind, i as nat));
        } else {
            assert(i == len);
            assert(m.rooms.len() == len + 1);
            assert(n.segments[i].index == len as usize);
            assert(n.segments[i].from == len as usize);
            assert(n.segments[i].to == (len + 1) as usize);
            assert(n.segments[i].kind == m.next_segment_kind);
        }
    }
    assert(n.next_segment_kind == kind_after(first_kind, n.segments.len()));
    assert(n.rooms.len() == n.segments.len() + 1);
}

/// Law: appending keeps the chain well formed, adds exactly `count` rooms and
/// `count` segments, and leaves the rooms and segments already there as they
/// were.
pub proof fn lemma_appended_well_formed(m: BlueprintModel, first_kind: SegmentKind, count: nat)
    requires
        chain_well_formed(m, first_kind),
        m.rooms.len() + count <= usize::MAX,
    ensures
        chain_well_formed(appended(m, count), first_kind),
        appended(m, count).rooms.len() == m.rooms.len() + count,
        appended(m, count).segments.len() == m.segments.len() + count,
        appended(m, count).rooms.take(m.rooms.len() as int) == m.rooms,
        appended(m, count).segments.take(m.segments.len() as int) == m.segments,
        appended(m, count).seed == m.seed,
    decreases count,
{
    lemma_append_one_shape(m);
    if count > 0 {
        lemma_append_one_well_formed(m, first_kind);
        let n = append_one(m);
        lemma_appended_well_formed(n, first_kind, (count - 1) as nat);
        let r = appended(n, (count - 1) as nat);
        assert(r.rooms.take(m.rooms.len() as int) =~= n.rooms.take(n.rooms.len() as int).take(
            m.rooms.len() as int,
        ));
        assert(r.segments.take(m.segments.len() as int) =~= n.segments.take(
            n.segments.len() as int,
        ).take(m.segments.len() as int));
    } else {
        assert(m.rooms.take(m.rooms.len() as int) =~= m.rooms);
        assert(m.segments.take(m.segments.len() as int) =~= m.segments);
    }
}

} // verus!
