use basic_game::seed::{run_seed_from_time, RUN_SEED_SALT};

#[test]
fn run_seed_mixes_seconds_and_nanoseconds() {
    assert_eq!(run_seed_from_time(1_700_000_000, 123_456_789), 0x38d4_5de8_59fe_4158);
    assert_eq!(run_seed_from_time(0, 0), RUN_SEED_SALT);
    assert_ne!(run_seed_from_time(1, 0), run_seed_from_time(0, 1));
}
