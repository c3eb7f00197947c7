use qnetsim::p2::P2;

/// Small deterministic linear congruential generator, so the statistical
/// checks are reproducible without any outside randomness.
struct Lcg(u64);

impl Lcg {
    fn next(&mut self) -> u64 {
        self.0 = self
            .0
            .wrapping_mul(6364136223846793005)
            .wrapping_add(1442695040888963407);
        self.0 >> 11
    }

    /// Uniform in [0, bound).
    fn below(&mut self, bound: u64) -> u64 {
        self.next() % bound
    }
}

/// The estimate is unavailable until strictly more than the convergence
/// threshold of samples has been seen.
#[test]
fn p2_convergence_guard() {
    let mut est = P2::new(1, 2);
    for i in 0..500 {
        assert!(est.get_quantile().is_none(), "published too early at {i}");
        est.new_sample(i);
    }
    assert!(est.get_quantile().is_none());
    est.new_sample(500);
    assert!(est.get_quantile().is_some());
}

/// For a uniform stream on [0, 1_000_000) and p = 1/2, the estimate lands
/// within five percent of the true median once converged; and after every
/// sample the heights stay sorted and the positions strictly increasing.
#[test]
fn p2_median_of_uniform_stream() {
    let mut est = P2::new(1, 2);
    let mut rng = Lcg(42);
    for _ in 0..2000 {
        est.new_sample(rng.below(1_000_000));
        let h = est.get_heights();
        for w in h.windows(2) {
            assert!(w[0] <= w[1], "heights not sorted: {h:?}");
        }
        let p = est.get_positions();
        for w in p.windows(2) {
            assert!(w[0] < w[1], "positions not strictly increasing: {p:?}");
        }
        if p.len() == 5 || est.get_count() >= 5 {
            assert_eq!(p[0], 1);
        }
    }
    let q = est.get_quantile().expect("converged");
    assert!(
        450_000 <= q && q <= 550_000,
        "median estimate {q} too far from 500000"
    );
}

/// The first five samples are buffered and sorted; the middle height then
/// matches the sample median exactly.
#[test]
fn p2_warmup_is_sorted_median() {
    let mut est = P2::new(1, 2);
    for s in [50u64, 10, 40, 20, 30] {
        est.new_sample(s);
    }
    assert_eq!(est.get_heights(), vec![10, 20, 30, 40, 50]);
    assert_eq!(est.get_positions(), vec![1, 2, 3, 4, 5]);
}

/// A constant stream estimates the constant.
#[test]
fn p2_constant_stream() {
    let mut est = P2::new(9, 10);
    for _ in 0..600 {
        est.new_sample(777);
    }
    assert_eq!(est.get_quantile(), Some(777));
}
