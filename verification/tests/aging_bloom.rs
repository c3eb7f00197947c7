use qnetsim::caches::abf_cache::AgingBloomFilter;
use qnetsim::caches::abf_fpga_cache::AgingBloomFilterFPGA;

const BITMAP: usize = 4096;

/// No false negatives: every recorded key answers positively while it has
/// not been rotated out of both generations. This test fails if the
/// underlying bit-setting were a no-op (an unrecorded key in a 4096-byte
/// bitmap answers negatively with overwhelming probability).
#[test]
fn fpga_no_false_negatives_and_rotation() {
    let mut f = AgingBloomFilterFPGA::new(3, BITMAP);
    f.record(1);
    f.record(2);
    assert_eq!(f.get_arrival_cnt(), 2);
    assert!(f.contains_key(&1));
    assert!(f.contains_key(&2));
    // Third arrival fills the generation: active becomes stale.
    f.record(3);
    assert_eq!(f.get_arrival_cnt(), 0);
    assert!(f.contains_key(&1));
    assert!(f.contains_key(&2));
    assert!(f.contains_key(&3));
    // One more full generation ages the first three out entirely.
    f.record(4);
    f.record(5);
    f.record(6);
    assert!(f.contains_key(&4));
    assert!(f.contains_key(&5));
    assert!(f.contains_key(&6));
    assert!(!f.contains_key(&1));
    assert!(!f.contains_key(&2));
}

/// `check_and_set` answers the state before the recording.
#[test]
fn fpga_check_and_set_reports_prior_state() {
    let mut f = AgingBloomFilterFPGA::new(10, BITMAP);
    assert!(!f.check_and_set(42));
    assert!(f.check_and_set(42));
}

/// The admission filter records only on an active-generation miss and
/// rotates once the generation has accumulated its capacity of recordings.
#[test]
fn abf_check_and_set_counts_distinct_keys() {
    let mut f = AgingBloomFilter::new(3, BITMAP);
    assert!(!f.check_and_set(1));
    assert!(!f.check_and_set(2));
    assert_eq!(f.get_active_size(), 2);
    // A repeated key hits the active generation and is not recorded again.
    assert!(f.check_and_set(1));
    assert_eq!(f.get_active_size(), 2);
    // The third distinct key fills the generation and rotates it away.
    assert!(!f.check_and_set(3));
    assert_eq!(f.get_active_size(), 0);
    // All three survive in the stale generation.
    assert!(f.contains_key(&1));
    assert!(f.contains_key(&2));
    assert!(f.contains_key(&3));
}

/// Shrinking the generation capacity discards enough history to honour the
/// new bound; growing keeps everything.
#[test]
fn abf_resize() {
    let mut f = AgingBloomFilter::new(10, BITMAP);
    for k in 0..4u64 {
        f.check_and_set(k);
    }
    assert_eq!(f.get_active_size(), 4);
    // Growing keeps the active generation.
    f.resize(20);
    assert_eq!(f.get_active_size(), 4);
    assert!(f.contains_key(&0));
    // Shrinking below the active size rotates the active generation away.
    f.resize(2);
    assert_eq!(f.get_active_size(), 0);
    assert!(f.contains_key(&0));
    // Unrecorded keys answer negatively (no stray bits were set).
    assert!(!f.contains_key(&123456));
}

/// On random non-members the false-positive rate stays near the rate the
/// bitmap was sized for (a loose deterministic bound on a fixed key set).
#[test]
fn fpga_false_positive_rate_is_bounded() {
    // 4096 bytes for 1000 keys is the sizing for roughly a 1% rate.
    let mut f = AgingBloomFilterFPGA::new(1000, 4096);
    for k in 0..999u64 {
        f.record(k);
    }
    let mut false_positives = 0;
    for k in 10_000..12_000u64 {
        if f.contains_key(&k) {
            false_positives += 1;
        }
    }
    assert!(
        false_positives < 200,
        "false positive rate {false_positives}/2000 far above target"
    );
}
