use qnetsim::caches::{Cache, PerfectLfu, RandomAccept};
use qnetsim::queues::mg1ps::Mg1Ps;
use qnetsim::distribution::{ConstantDistribution, Mmpp2, MutDistribution};
use qnetsim::request::Request;
use qnetsim::timeheap::TimeHeap;

/// The priority store surrenders entries in key order, whatever the
/// insertion order, and bulk translation shifts every key by the offset.
#[test]
fn timeheap_orders_and_translates() {
    let mut h: TimeHeap<&str> = TimeHeap::new();
    h.push(30, "c");
    h.push(10, "a");
    h.push(20, "b");
    assert_eq!(h.len(), 3);
    assert_eq!(h.peek().map(|(k, v)| (k, *v)), Some((10, "a")));
    h.translate_keys(5);
    assert_eq!(h.pop(), Some((15, "a")));
    assert_eq!(h.pop(), Some((25, "b")));
    assert_eq!(h.pop(), Some((35, "c")));
    assert_eq!(h.pop(), None);
    assert!(h.is_empty());
}

/// Equal keys come out in some valid order; both entries surface.
#[test]
fn timeheap_ties_are_any_valid_order() {
    let mut h: TimeHeap<u32> = TimeHeap::new();
    h.push(7, 1);
    h.push(7, 2);
    let a = h.pop().unwrap();
    let b = h.pop().unwrap();
    assert_eq!(a.0, 7);
    assert_eq!(b.0, 7);
    let mut vals = vec![a.1, b.1];
    vals.sort();
    assert_eq!(vals, vec![1, 2]);
}

/// A request's log grows by exactly the appended hops; the lifetime is the
/// gap between the first and last hop.
#[test]
fn request_log_and_lifetime() {
    let mut r = Request::new(3, 99);
    assert_eq!(r.get_id(), 3);
    assert_eq!(r.get_content(), 99);
    assert_eq!(r.get_current_lifetime(), 0);
    r.add_log_entry(100, 0, 1);
    assert_eq!(r.get_current_lifetime(), 0);
    r.add_log_entry(175, 1, 2);
    assert_eq!(r.get_current_lifetime(), 75);
    let log = r.get_log();
    assert_eq!(log.len(), 2);
    assert_eq!(log[0].time, 100);
    assert_eq!(log[1].destination, 2);
}

/// The two-state modulated process accounts for regime switches strictly
/// inside a draw: with constant inner sources the sample sequence is a
/// fixed, hand-computable pattern.
#[test]
fn mmpp2_accounts_for_regime_switches() {
    let mut m = Mmpp2::new(
        ConstantDistribution::new(2),
        ConstantDistribution::new(5),
        ConstantDistribution::new(2),
        ConstantDistribution::new(5),
    );
    // First draw: 2 > 0 pending, switch once, restart at the horizon: 0+2=2,
    // horizon moves to 5, 2 <= 5 ends the loop, horizon left at 3.
    assert_eq!(m.mut_sample(), 2);
    // Second draw: 2 <= 3, no switch, horizon left at 1.
    assert_eq!(m.mut_sample(), 2);
    // Third draw: 2 > 1, one switch: 1+2=3, horizon 1+5=6, then 6-3=3.
    assert_eq!(m.mut_sample(), 3);
}

/// The ideal frequency filter admits exactly the keys up to its threshold.
#[test]
fn perfect_lfu_threshold() {
    let mut f = PerfectLfu::new(10);
    assert!(f.contains(&0));
    assert!(f.contains(&10));
    assert!(!f.contains(&11));
    f.update(11);
    assert!(!f.contains(&11));
}

/// The Bernoulli filter honours its declared bounds: probability zero never
/// admits, probability one always admits, and out-of-range rationals are
/// rejected at construction.
#[test]
fn random_accept_extremes() {
    assert!(RandomAccept::from_value(3, 2).is_err());
    assert!(RandomAccept::from_value(1, 0).is_err());
    let never = RandomAccept::from_value(0, 7).unwrap();
    let always = RandomAccept::from_value(7, 7).unwrap();
    for _ in 0..100 {
        assert!(!never.draw());
        assert!(always.draw());
    }
}

/// The constant distribution is pure with respect to its declared value.
#[test]
fn constant_distribution_is_constant() {
    let mut d = ConstantDistribution::new(314);
    assert_eq!(d.mut_sample(), 314);
    assert_eq!(d.mut_sample(), 314);
}

/// Processor sharing splits the capacity evenly: two equal jobs arriving
/// together finish together, at twice the single-job service time — the
/// observable face of exact work conservation.
#[test]
fn processor_sharing_is_fair() {
    let mut ps = Mg1Ps::new(1, ConstantDistribution::new(10));
    let mut solo = Request::new(0, 0);
    solo.add_log_entry(0, 0, 1);
    ps.arrival(solo);
    // Alone, a 10-work job at capacity 1 exits 10 ticks after its arrival.
    assert_eq!(ps.read_next_exit().map(|(t, _)| t), Some(10));
    // A second identical job halves the service rate for both.
    ps.arrival(Request::new(1, 0));
    assert_eq!(ps.read_load(), 2);
    assert_eq!(ps.read_next_exit().map(|(t, _)| t), Some(20));
    let (t1, _) = ps.pop_next_exit().unwrap();
    assert_eq!(t1, 20);
    // After advancing to the first exit, the survivor has no work left.
    ps.advance_time(20);
    let (t2, _) = ps.pop_next_exit().unwrap();
    assert_eq!(t2, 20);
    assert_eq!(ps.read_load(), 0);
}
