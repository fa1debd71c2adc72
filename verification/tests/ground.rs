use basic_game::ground::StableGround;

#[test]
fn keeps_the_five_newest_positions_newest_first() {
    let mut ground = StableGround::new();
    for position in 1..=7 {
        ground.record_stable(position);
    }
    assert_eq!(ground.previous.iter().copied().collect::<Vec<_>>(), vec![7, 6, 5, 4, 3]);
}

#[test]
fn take_gives_back_the_newest_recorded_position() {
    let mut ground = StableGround::new();
    assert_eq!(ground.take_last_stable(), None);
    ground.record_stable((1.0_f32, 2.0_f32));
    ground.record_stable((3.0_f32, 4.0_f32));
    assert_eq!(ground.take_last_stable(), Some((3.0, 4.0)));
    assert_eq!(ground.take_last_stable(), Some((1.0, 2.0)));
    assert_eq!(ground.take_last_stable(), None);
}
