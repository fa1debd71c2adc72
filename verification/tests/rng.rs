use basic_game::rng::{RunRng, GOLDEN_GAMMA};

#[test]
fn new_stream_xors_seed_with_golden_gamma() {
    assert_eq!(RunRng::new(0).state, 0x9e37_79b9_7f4a_7c15);
    assert_eq!(RunRng::new(GOLDEN_GAMMA).state, 0);
}

#[test]
fn next_u64_matches_known_splitmix_values() {
    let mut rng = RunRng::new(0);
    assert_eq!(rng.next_u64(), 0x6e78_9e6a_a1b9_65f4);
    assert_eq!(rng.next_u64(), 0x06c4_5d18_8009_454f);
    assert_eq!(rng.state, 0xdaa6_6d2c_7ddf_743f);
}

#[test]
fn unit_samples_are_the_top_24_bits() {
    let mut rng = RunRng::new(42);
    assert_eq!(rng.next_unit_sample(), 2_682_851);
    assert_eq!(rng.next_unit_sample(), 4_674_151);
    assert_eq!(rng.next_unit_sample(), 5_774_561);
}

#[test]
fn same_seed_gives_same_stream() {
    let mut a = RunRng::new(0xD15C_A11E);
    let mut b = RunRng::new(0xD15C_A11E);
    for _ in 0..64 {
        assert_eq!(a.next_u64(), b.next_u64());
    }
}

#[test]
fn fork_mixes_the_salt_and_leaves_the_parent_alone() {
    let rng = RunRng::new(7);
    let before = rng.state;
    let forked = rng.fork(0xB105_F11E);
    assert_eq!(forked.state, 0x449f_ceda_7103_15d8);
    assert_eq!(rng.state, before);
    assert_ne!(rng.fork(1).state, rng.fork(2).state);
}

#[test]
fn weighted_choice_skips_zero_weights() {
    let mut rng = RunRng::new(1);
    // The first word of seed 1 modulo 8 is 1, which falls in the weight of 'b'.
    let choice = rng.weighted_choice(&[('a', 0), ('b', 5), ('c', 0), ('d', 3)]);
    assert_eq!(choice, 'b');
    for seed in 0..256u64 {
        let mut rng = RunRng::new(seed);
        let choice = rng.weighted_choice(&[('a', 0), ('b', 5), ('c', 0), ('d', 3)]);
        assert!(choice == 'b' || choice == 'd');
    }
}

#[test]
fn weighted_choice_takes_one_draw() {
    let mut a = RunRng::new(99);
    let mut b = RunRng::new(99);
    let _ = a.weighted_choice(&[(1u8, 1), (2u8, 1)]);
    let _ = b.next_u64();
    assert_eq!(a.state, b.state);
}
