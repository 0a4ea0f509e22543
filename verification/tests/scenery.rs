use ryggattack::rng::SimpleRng;
use ryggattack::scenery::{
    BLAST_REACH_CM, BlastShape, CHAIN_LINKS, PropKind, blast_shape, chain_blast_radius_cm, take_flash, chain_continues, flashes_allowed,
    weighted_kind, wrecking_blasts,
};

const KINDS: [PropKind; 6] = [
    PropKind::Pine,
    PropKind::Birch,
    PropKind::Bush,
    PropKind::Rock,
    PropKind::Stump,
    PropKind::Fern,
];

#[test]
fn the_chain_always_ends() {
    assert_eq!(chain_blast_radius_cm(CHAIN_LINKS - 1), 0);
    let radii: Vec<u32> = (0..CHAIN_LINKS).map(chain_blast_radius_cm).collect();
    assert!(radii.windows(2).all(|pair| pair[1] < pair[0]));
}

#[test]
fn no_blast_reaches_the_backdrop() {
    // Hit radii in centimetres, scaled up by the largest prop scale of 2.2.
    let widest_prop = KINDS.map(PropKind::hit_radius_cm).into_iter().max().unwrap() * 22 / 10;
    // Every link of the chain that wrecks anything carries the blast one
    // radius plus one prop further out.
    let reach: u32 = (0..CHAIN_LINKS)
        .map(chain_blast_radius_cm)
        .filter(|radius| *radius > 0)
        .map(|radius| radius + widest_prop)
        .sum();
    assert!(reach < BLAST_REACH_CM, "{reach} >= {BLAST_REACH_CM}");
}

#[test]
fn only_the_first_links_set_off_more_blasts() {
    assert!(chain_continues(0));
    assert!(chain_continues(1));
    assert!(!chain_continues(2));
}

#[test]
fn only_three_blast_lights_burn_at_once() {
    assert_eq!(flashes_allowed(0), 3);
    assert_eq!(flashes_allowed(2), 1);
    assert_eq!(flashes_allowed(3), 0);
    assert_eq!(flashes_allowed(10), 0);
}

#[test]
fn low_growth_is_below_a_metre() {
    let low: Vec<PropKind> = KINDS.into_iter().filter(|kind| kind.is_low()).collect();
    assert_eq!(low, vec![PropKind::Bush, PropKind::Rock, PropKind::Stump, PropKind::Fern]);
    assert_eq!(PropKind::Pine.height_cm(), 210);
    assert_eq!(PropKind::Birch.track_clearance_cm(), 115);
    assert_eq!(PropKind::Fern.footprint_cm(), 30);
}

#[test]
fn a_kind_is_drawn_by_its_weight() {
    // With a single non-zero weight every draw lands on that kind.
    let mut rng = SimpleRng::new(5);
    for _ in 0..20 {
        assert_eq!(weighted_kind(&mut rng, &[(PropKind::Pine, 0), (PropKind::Rock, 4), (PropKind::Fern, 0)]), PropKind::Rock);
    }
    // The draw is the generator's next index below the total weight.
    let kinds = [(PropKind::Pine, 3), (PropKind::Birch, 2), (PropKind::Bush, 5)];
    let mut rng = SimpleRng::new(17);
    let mut twin = SimpleRng::new(17);
    for _ in 0..50 {
        let pick = twin.index(10);
        let expected = if pick < 3 {
            PropKind::Pine
        } else if pick < 5 {
            PropKind::Birch
        } else {
            PropKind::Bush
        };
        assert_eq!(weighted_kind(&mut rng, &kinds), expected);
    }
}

#[test]
fn two_blasts_wreck_a_prop_only_once() {
    // Blast 0 reaches props 0 and 1, blast 1 reaches props 1 and 2, blast 2
    // only flashes and wrecks nothing it reaches.
    let chains = vec![0, 1, 2];
    let within = vec![vec![true, true, false, false], vec![false, true, true, false], vec![false, false, false, true]];
    assert_eq!(wrecking_blasts(&chains, &within, 4), vec![Some(0), Some(0), Some(1), None]);
    assert_eq!(wrecking_blasts(&vec![], &vec![], 2), vec![None, None]);
}

#[test]
fn a_missiles_own_blast_is_the_largest_and_scorches() {
    assert_eq!(blast_shape(0), BlastShape { full_size: true, sparks: 14, scorch: true });
    assert_eq!(blast_shape(1), BlastShape { full_size: false, sparks: 7, scorch: false });
    assert_eq!(blast_shape(2), blast_shape(1));
}

#[test]
fn blast_lights_come_out_of_the_frames_budget() {
    let mut budget = 2;
    assert!(take_flash(&mut budget));
    assert!(take_flash(&mut budget));
    assert!(!take_flash(&mut budget));
    assert_eq!(budget, 0);
}
