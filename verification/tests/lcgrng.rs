use noise::lcgrng::LCG;

#[test]
fn first_draw_from_zero_is_the_increment() {
    let mut rng = LCG::from_seed(0);
    assert_eq!(rng.next_u32(), 1013904223);
    assert_eq!(rng.next_u32(), 1196435762);
}

#[test]
fn first_draw_from_one_adds_the_multiplier() {
    let mut rng = LCG::from_seed(1);
    assert_eq!(rng.next_u32(), 1664525 + 1013904223);
}

#[test]
fn draws_from_seed_42() {
    let mut rng = LCG::from_seed(42);
    let expected: [u32; 5] = [1083814273, 378494188, 2479403867, 955863294, 1613448261];
    for value in expected {
        assert_eq!(rng.next_u32(), value);
    }
}

#[test]
fn step_wraps_around_at_the_largest_state() {
    let mut rng = LCG::from_seed(u32::MAX);
    assert_eq!(rng.next_u32(), 1012239698);
}

#[test]
fn each_draw_is_one_step_from_the_last() {
    let mut rng = LCG::from_seed(7);
    let mut state: u64 = 7;
    for _ in 0..1000 {
        state = (state * 1664525 + 1013904223) % (1u64 << 32);
        assert_eq!(rng.next_u32() as u64, state);
    }
}

#[test]
fn same_seed_gives_same_sequence() {
    let mut a = LCG::from_seed(90813409);
    let mut b = LCG::from_seed(90813409);
    for _ in 0..100 {
        assert_eq!(a.next_u32(), b.next_u32());
    }
}

#[test]
fn reseed_starts_the_sequence_over() {
    let mut rng = LCG::from_seed(5);
    let first = rng.next_u32();
    rng.next_u32();
    rng.reseed(5);
    assert_eq!(rng.next_u32(), first);
    rng.reseed(42);
    assert_eq!(rng.next_u32(), 1083814273);
}

#[test]
fn sequence_does_not_return_to_the_seed_early() {
    for seed in [0u32, 42, u32::MAX] {
        let mut rng = LCG::from_seed(seed);
        for _ in 0..1_000_000 {
            assert_ne!(rng.next_u32(), seed);
        }
    }
}

#[test]
fn early_states_are_all_different() {
    let mut rng = LCG::from_seed(42);
    let mut seen = std::collections::HashSet::new();
    seen.insert(42u32);
    for _ in 0..100_000 {
        assert!(seen.insert(rng.next_u32()));
    }
}
