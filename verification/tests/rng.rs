use ryggattack::rng::{SimpleRng, rotate_left};
use ryggattack::union_find::UnionFind;

fn reference_step(state: u64) -> u64 {
    let mut x = state;
    x ^= x >> 12;
    x ^= x << 25;
    x ^= x >> 27;
    x.wrapping_mul(0x2545_f491_4f6c_dd1d)
}

#[test]
fn the_generator_is_xorshift_star() {
    let mut rng = SimpleRng::new(11);
    let mut state = 11;
    for _ in 0..100 {
        state = reference_step(state);
        assert_eq!(rng.next(), state);
    }
}

#[test]
fn a_zero_seed_does_not_stall_the_generator() {
    let mut rng = SimpleRng::new(0);
    let first = rng.next();
    assert_ne!(first, 0);
    assert_eq!(first, reference_step(0x9e37_79b9_7f4a_7c15));
    assert_ne!(rng.next(), first);
}

#[test]
fn indices_stay_in_range_and_chances_follow_the_draw() {
    let mut rng = SimpleRng::new(3);
    let mut twin = SimpleRng::new(3);
    for length in 1..50 {
        let index = rng.index(length);
        assert!(index < length);
        assert_eq!(index, (twin.next() as usize) % length);
    }
    let mut rng = SimpleRng::new(4);
    let mut twin = SimpleRng::new(4);
    for _ in 0..50 {
        assert_eq!(rng.chance(28), twin.next() % 100 < 28);
    }
    assert!(!SimpleRng::new(9).chance(0));
    assert!(SimpleRng::new(9).chance(100));
}

#[test]
fn a_shuffle_only_reorders() {
    let mut rng = SimpleRng::new(21);
    let mut values: Vec<u32> = (0..40).collect();
    rng.shuffle(&mut values);
    assert_ne!(values, (0..40).collect::<Vec<u32>>());
    let mut sorted = values.clone();
    sorted.sort();
    assert_eq!(sorted, (0..40).collect::<Vec<u32>>());

    let mut empty: [u32; 0] = [];
    rng.shuffle(&mut empty);
    let mut one = [5];
    rng.shuffle(&mut one);
    assert_eq!(one, [5]);
}

#[test]
fn rotating_matches_the_standard_library() {
    for (x, n) in [(1u64, 32u32), (0x8000_0000_0000_0001, 1), (0xdead_beef, 63), (0xdead_beef, 0), (0xdead_beef, 64), (3, 65)] {
        assert_eq!(rotate_left(x, n), x.rotate_left(n));
    }
}

#[test]
fn unions_join_each_pair_of_trees_once() {
    let mut sets = UnionFind::new();
    assert!(sets.union(0, 1));
    assert!(sets.union(1, 2));
    assert!(!sets.union(0, 2));
    assert_eq!(sets.find_root(2), sets.find_root(0));
    assert_ne!(sets.find_root(3), sets.find_root(0));
    assert!(sets.union(24, 3));
    assert!(sets.union(3, 0));
    assert_eq!(sets.find_root(24), sets.find_root(1));
}
