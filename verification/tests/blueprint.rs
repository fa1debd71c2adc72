use basic_game::course::{
    append_run_blueprint, build_run_blueprint, next_segment_kind, RoomDraws, RunBlueprint,
    SegmentKind, INITIAL_ROOM_COUNT,
};

const SPAWN_ROOM_HEIGHT: f32 = 160.0;
const SURF_SECTION_DROP_MIN: f32 = 24.0;
const SURF_SECTION_DROP_MAX: f32 = 36.0;
const BHOP_SECTION_DROP_MIN: f32 = 16.0;
const BHOP_SECTION_DROP_MAX: f32 = 28.0;

/// The height of every room: each room sits below the one before it by the
/// drop of the segment that reaches it, scaled from its drop sample.
fn room_heights(blueprint: &RunBlueprint) -> Vec<f32> {
    let mut heights = vec![SPAWN_ROOM_HEIGHT];
    for segment in &blueprint.segments {
        let draws = blueprint.rooms[segment.to].draws.expect("appended rooms carry draws");
        let (min, max) = match segment.kind {
            SegmentKind::SurfRamp => (SURF_SECTION_DROP_MIN, SURF_SECTION_DROP_MAX),
            SegmentKind::SquareBhop => (BHOP_SECTION_DROP_MIN, BHOP_SECTION_DROP_MAX),
        };
        let drop = min + (max - min) * (draws.drop as f32 / 16_777_215.0);
        let previous = heights[segment.from];
        heights.push(previous - drop);
    }
    heights
}

#[test]
fn blueprint_only_generates_surf_and_square_bhop_sections() {
    let blueprint = build_run_blueprint(42);

    assert!(blueprint.rooms.len() >= 2);
    assert_eq!(blueprint.segments.len(), blueprint.rooms.len() - 1);
    assert_eq!(
        blueprint.segments.first().map(|segment| segment.kind),
        Some(SegmentKind::SquareBhop)
    );
    assert!(blueprint.segments.iter().all(|segment| matches!(
        segment.kind,
        SegmentKind::SurfRamp | SegmentKind::SquareBhop
    )));
    assert!(
        blueprint
            .segments
            .iter()
            .any(|segment| segment.kind == SegmentKind::SquareBhop)
    );
    assert!(
        blueprint
            .segments
            .iter()
            .any(|segment| segment.kind == SegmentKind::SurfRamp)
    );
}

#[test]
fn append_run_blueprint_keeps_only_surf_and_square_bhop_sections() {
    let blueprint = build_run_blueprint(0xC001_CAFE);
    let mut blueprint = blueprint.clone();
    append_run_blueprint(&mut blueprint, 6);

    assert!(blueprint.segments.iter().all(|segment| matches!(
        segment.kind,
        SegmentKind::SurfRamp | SegmentKind::SquareBhop
    )));
    assert!(
        blueprint
            .segments
            .iter()
            .any(|segment| segment.kind == SegmentKind::SquareBhop)
    );
}

#[test]
fn append_run_blueprint_adds_more_rooms_and_segments() {
    let mut blueprint = build_run_blueprint(7);
    let rooms_before = blueprint.rooms.len();
    let segments_before = blueprint.segments.len();
    let tail_y_before = *room_heights(&blueprint).last().unwrap();

    append_run_blueprint(&mut blueprint, 6);

    assert_eq!(blueprint.rooms.len(), rooms_before + 6);
    assert_eq!(blueprint.segments.len(), segments_before + 6);
    assert_eq!(blueprint.segments.len(), blueprint.rooms.len() - 1);
    assert!(*room_heights(&blueprint).last().unwrap() < tail_y_before);
    assert_eq!(
        blueprint.segments[segments_before].from,
        rooms_before - 1
    );
}

#[test]
fn build_run_blueprint_matches_known_draws() {
    let blueprint = build_run_blueprint(42);
    assert_eq!(blueprint.seed, 42);
    assert_eq!(blueprint.rooms.len(), INITIAL_ROOM_COUNT);
    assert_eq!(blueprint.rooms[0].draws, None);
    assert_eq!(
        blueprint.rooms[1].draws,
        Some(RoomDraws {
            turn: 2_682_851,
            gap: 4_674_151,
            drop: 5_774_561,
            lateral: 638_040,
        })
    );
    assert_eq!(blueprint.segments[0].seed, 16_015_981_125_662_989_062);
    assert_eq!(blueprint.segments[1].seed, 3_779_771_651_426_294_207);
    assert_eq!(blueprint.generator.state, 0xf878_2311_ca1c_d666);
    assert_eq!(blueprint.next_segment_kind, SegmentKind::SurfRamp);
}

#[test]
fn segments_chain_consecutive_rooms_and_alternate_kinds() {
    let blueprint = build_run_blueprint(0xA11C_E123);
    for (index, segment) in blueprint.segments.iter().enumerate() {
        assert_eq!(segment.index, index);
        assert_eq!(segment.from, index);
        assert_eq!(segment.to, index + 1);
        let expected = if index % 2 == 0 {
            SegmentKind::SquareBhop
        } else {
            SegmentKind::SurfRamp
        };
        assert_eq!(segment.kind, expected);
    }
    for (index, room) in blueprint.rooms.iter().enumerate() {
        assert_eq!(room.index, index);
        assert_eq!(room.draws.is_none(), index == 0);
    }
}

#[test]
fn appending_in_two_batches_equals_appending_at_once() {
    let mut split = build_run_blueprint(0x5EED);
    let mut whole = split.clone();
    append_run_blueprint(&mut split, 3);
    append_run_blueprint(&mut split, 5);
    append_run_blueprint(&mut whole, 8);
    assert_eq!(split.rooms, whole.rooms);
    assert_eq!(split.segments, whole.segments);
    assert_eq!(split.generator, whole.generator);
    assert_eq!(split.next_segment_kind, whole.next_segment_kind);
}

#[test]
fn appending_keeps_existing_rooms_and_segments() {
    let base = build_run_blueprint(11);
    let mut grown = base.clone();
    append_run_blueprint(&mut grown, 4);
    assert_eq!(&grown.rooms[..base.rooms.len()], &base.rooms[..]);
    assert_eq!(&grown.segments[..base.segments.len()], &base.segments[..]);
}

#[test]
fn appending_nothing_or_to_an_empty_blueprint_changes_nothing() {
    let base = build_run_blueprint(3);
    let mut same = base.clone();
    append_run_blueprint(&mut same, 0);
    assert_eq!(same.rooms, base.rooms);
    assert_eq!(same.generator, base.generator);

    let mut empty = base.clone();
    empty.rooms.clear();
    let before = empty.clone();
    append_run_blueprint(&mut empty, 5);
    assert!(empty.rooms.is_empty());
    assert_eq!(empty.segments, before.segments);
    assert_eq!(empty.generator, before.generator);
}

#[test]
fn next_segment_kind_alternates() {
    assert_eq!(next_segment_kind(SegmentKind::SurfRamp), SegmentKind::SquareBhop);
    assert_eq!(next_segment_kind(SegmentKind::SquareBhop), SegmentKind::SurfRamp);
    for kind in [SegmentKind::SurfRamp, SegmentKind::SquareBhop] {
        assert_eq!(next_segment_kind(next_segment_kind(kind)), kind);
    }
}

#[test]
fn first_segment_is_the_first_bhop_section() {
    let blueprint = build_run_blueprint(0xBEEF);
    let first = blueprint.first_segment().expect("a built blueprint has segments");
    assert_eq!(first.index, 0);
    assert_eq!(first.kind, SegmentKind::SquareBhop);
}
