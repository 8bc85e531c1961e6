use rust_zca_bench::reduce;
use rust_zca_bench::TestSet;

#[test]
fn create_sets_counts_and_lengths() {
    let mut rng = rand::thread_rng();
    let test_set = TestSet::create(20, 5, &mut rng);
    assert_eq!(5, test_set.num_vecs());
    assert_eq!(20, test_set.vec_length());
}

#[test]
fn created_elements_stay_in_range() {
    let mut rng = rand::thread_rng();
    let test_set = TestSet::create(64, 4, &mut rng);
    for _ in 0..16 {
        let (v1, v2) = test_set.sample_pair(&mut rng);
        for &x in v1.iter().chain(v2.iter()) {
            assert!((0..10).contains(&x), "element {} out of range", x);
        }
    }
}

#[test]
fn sampled_pairs_have_equal_length() {
    let mut rng = rand::thread_rng();
    let test_set = TestSet::create(33, 7, &mut rng);
    for _ in 0..16 {
        let (v1, v2) = test_set.sample_pair(&mut rng);
        assert_eq!(33, v1.len());
        assert_eq!(33, v2.len());
    }
}

#[test]
fn sampled_pairs_reduce_consistently() {
    let mut rng = rand::thread_rng();
    let test_set = TestSet::create(100, 3, &mut rng);
    for _ in 0..8 {
        let (v1, v2) = test_set.sample_pair(&mut rng);
        let r = reduce(v1, v2).expect("equal-length pair must reduce");
        // elements lie in [0, 10), so every term is below 9 * 9
        assert!(r >= 0);
        assert!(r <= 100 * 81);
    }
}
