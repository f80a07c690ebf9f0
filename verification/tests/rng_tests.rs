use briscola::rng::FastRng;

#[test]
fn next_u64_follows_xorshift_star() {
    let mut rng = FastRng::new(42);
    assert_eq!(rng.next_u64(), 6255019084209693600);
    assert_eq!(rng.next_u64(), 14430073426741505498);
    assert_eq!(rng.next_u64(), 14575455857230217846);
}

#[test]
fn zero_seed_is_remapped() {
    let mut rng = FastRng::new(0);
    assert_eq!(rng.next_u64(), 973819730272012410);
    let mut other = FastRng::new(0x9E37_79B9_7F4A_7C15);
    assert_eq!(other.next_u64(), 973819730272012410);
}

#[test]
fn gen_below_stays_in_range() {
    let mut rng = FastRng::new(42);
    assert_eq!(rng.gen_below(10), 0);
    for upper in 2..50usize {
        assert!(rng.gen_below(upper) < upper);
    }
    assert_eq!(rng.gen_below(0), 0);
    assert_eq!(rng.gen_below(1), 0);
}

#[test]
fn gen_below_of_one_does_not_advance() {
    let mut a = FastRng::new(5);
    let mut b = FastRng::new(5);
    a.gen_below(1);
    a.gen_below(0);
    assert_eq!(a.next_u64(), b.next_u64());
}

#[test]
fn shuffle_is_a_permutation_and_deterministic() {
    let mut items: Vec<u32> = (0..40).collect();
    let mut rng = FastRng::new(9);
    rng.shuffle(&mut items);
    let mut again: Vec<u32> = (0..40).collect();
    let mut rng2 = FastRng::new(9);
    rng2.shuffle(&mut again);
    assert_eq!(items, again);
    assert_ne!(items, (0..40).collect::<Vec<u32>>());
    let mut sorted = items.clone();
    sorted.sort();
    assert_eq!(sorted, (0..40).collect::<Vec<u32>>());
}

#[test]
fn shuffle_of_short_slices_is_identity() {
    let mut rng = FastRng::new(3);
    let mut one = [7u8];
    rng.shuffle(&mut one);
    assert_eq!(one, [7u8]);
    let mut empty: [u8; 0] = [];
    rng.shuffle(&mut empty);
    let mut fresh = FastRng::new(3);
    assert_eq!(rng.next_u64(), fresh.next_u64());
}

#[test]
fn shuffle_two_items_matches_gen_below() {
    let mut rng = FastRng::new(11);
    let mut probe = FastRng::new(11);
    let j = probe.gen_below(2);
    let mut items = [1u8, 2u8];
    rng.shuffle(&mut items);
    if j == 1 {
        assert_eq!(items, [1, 2]);
    } else {
        assert_eq!(items, [2, 1]);
    }
}

#[test]
fn outputs_are_never_zero_and_seeds_are_told_apart() {
    let mut rng = FastRng::new(0);
    for _ in 0..10_000 {
        assert_ne!(rng.next_u64(), 0);
    }
    let firsts: Vec<u64> = (1..200u64).map(|s| FastRng::new(s).next_u64()).collect();
    for i in 0..firsts.len() {
        for j in (i + 1)..firsts.len() {
            assert_ne!(firsts[i], firsts[j]);
        }
    }
}
