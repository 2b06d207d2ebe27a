use fallen_leaves_world::clcg_seed_gen::Clcg;
use fallen_leaves_world::spotted_influence::spot_centers;

#[test]
fn seed_zero_first_draws() {
    let mut rng = Clcg::new(0);
    assert_eq!(rng.next_u32(), 2147482885);
    assert_eq!(rng.next_u32(), 2092764895);
    assert_eq!(rng.next_u32(), 1390461065);
}

#[test]
fn seed_with_high_word_draws() {
    let mut rng = Clcg::new(123456789012345);
    assert_eq!(rng.next_u32(), 375271538);
    assert_eq!(rng.next_u32(), 304774107);
    assert_eq!(rng.next_u32(), 1321483467);
}

#[test]
fn next_u64_joins_two_draws() {
    let mut a = Clcg::new(0);
    assert_eq!(a.next_u64(), 9223368761887493855);
    let mut b = Clcg::new(0);
    let hi = b.next_u32() as u64;
    let lo = b.next_u32() as u64;
    let mut c = Clcg::new(0);
    assert_eq!(c.next_u64(), (hi << 32) | lo);
}

#[test]
fn same_seed_same_sequence() {
    let mut a = Clcg::new(987654321);
    let mut b = Clcg::new(987654321);
    for _ in 0..100 {
        assert_eq!(a.next_u32(), b.next_u32());
    }
    assert_eq!(a, b);
}

#[test]
fn draws_stay_below_first_modulus() {
    let mut rng = Clcg::new(u64::MAX);
    for _ in 0..1000 {
        assert!(rng.next_u32() < 2_147_483_563);
    }
}

#[test]
fn spot_centers_follow_the_draws() {
    let mut rng = Clcg::new(42);
    let centers = spot_centers(&mut rng, 3, 100, 50);
    assert_eq!(centers, vec![(96, 28), (92, 25), (97, 41)]);
    let mut again = Clcg::new(42);
    for _ in 0..6 {
        again.next_u32();
    }
    assert_eq!(rng, again);
}

#[test]
fn spot_centers_none_requested() {
    let mut rng = Clcg::new(7);
    let before = rng;
    assert!(spot_centers(&mut rng, 0, 10, 10).is_empty());
    assert_eq!(rng, before);
}
