use qnetsim::distribution::{ConstantDistribution, MutDistribution};
use qnetsim::queues::file_logger::FileLogger;
use qnetsim::queues::generator::Generator;
use qnetsim::queues::mg1ps::Mg1Ps;
use qnetsim::queues::queueing_network::{CacheBox, QNet, RoutePolicy, Transition, TransitionError};
use qnetsim::queues::trace_generator::TraceGenerator;
use qnetsim::queues::Station;
use qnetsim::caches::lru_cache::LruCache;

/// Tick-valued sample source over a deterministic generator: exponential
/// inter-arrival and service draws with a fixed seed, so whole simulations
/// are reproducible.
enum TestDist {
    Constant(u64),
    /// Exponential with the given mean (in ticks), seeded.
    Exp { mean: f64, state: u64 },
}

impl TestDist {
    fn exp(mean: f64, seed: u64) -> TestDist {
        TestDist::Exp { mean, state: seed }
    }
}

impl MutDistribution for TestDist {
    fn mut_sample(&mut self) -> u64 {
        match self {
            TestDist::Constant(v) => *v,
            TestDist::Exp { mean, state } => {
                *state = state
                    .wrapping_mul(6364136223846793005)
                    .wrapping_add(1442695040888963407);
                let u = ((*state >> 11) as f64 + 1.0) / ((1u64 << 53) as f64);
                let draw = -u.ln() * *mean;
                if draw < 0.0 {
                    0
                } else {
                    draw as u64
                }
            },
        }
    }
}

/// One Poisson-like source feeding one processor-sharing station feeding a
/// terminal logger: a long run terminates without error and logs one
/// completion per served request, identifiers distinct and consecutive,
/// lifetimes non-negative and hop logs complete.
#[test]
fn end_to_end_generator_server_logger() {
    let mut qn: QNet<TestDist> = QNet::new();
    // Mean inter-arrival 1_000_000 ticks (rate 1/s at microsecond ticks).
    let gen = Generator::new(
        TestDist::exp(1_000_000.0, 7),
        TestDist::Constant(0),
        0,
    );
    let source = qn.add_queue(Station::Generator(gen));
    // Capacity 2, exponentially distributed service work of mean 1_000_000.
    let server = qn.add_queue(Station::Mg1Ps(Mg1Ps::new(
        2,
        TestDist::exp(1_000_000.0, 99),
    )));
    let log = qn.add_queue(Station::Logger(FileLogger::new(1024)));
    qn.add_transition(source, RoutePolicy::To(server));
    qn.add_transition(server, RoutePolicy::To(log));

    let steps = 100_000usize;
    for _ in 0..steps {
        match qn.make_transition() {
            Ok(_) => (),
            Err(e) => panic!("unexpected error: {e:?}"),
        }
    }
    let completions = qn.drain_logged(log);
    // Every transition is either source->server or server->logger, so about
    // half the transitions complete a request (residuals stay in flight).
    assert!(completions.len() >= steps / 2 - 64);
    assert!(completions.len() <= steps / 2 + 1);
    let mut seen = std::collections::HashSet::new();
    for r in &completions {
        assert!(seen.insert(r.get_id()), "duplicate id {}", r.get_id());
        let log_entries = r.get_log();
        assert_eq!(log_entries.len(), 2);
        assert_eq!(log_entries[0].origin, source);
        assert_eq!(log_entries[0].destination, server);
        assert_eq!(log_entries[1].origin, server);
        assert_eq!(log_entries[1].destination, log);
        assert!(log_entries[1].time >= log_entries[0].time);
    }
    // Identifiers are assigned consecutively from the generator's base, so
    // the set of completed ids has no gaps below its size (residuals aside).
    let max_id = completions.iter().map(|r| r.get_id()).max().unwrap();
    assert!((max_id as usize) < completions.len() + 8);
}

fn deterministic_net() -> (QNet<ConstantDistribution>, usize) {
    let mut qn: QNet<ConstantDistribution> = QNet::new();
    let records: Vec<(u64, u64)> = (0..50).map(|i| (i * 10, i % 7)).collect();
    let source = qn.add_queue(Station::TraceGen(TraceGenerator::new(records, 0)));
    let server = qn.add_queue(Station::Mg1Ps(Mg1Ps::new(
        1,
        ConstantDistribution::new(25),
    )));
    let log = qn.add_queue(Station::Logger(FileLogger::new(64)));
    qn.add_transition(source, RoutePolicy::To(server));
    qn.add_transition(server, RoutePolicy::To(log));
    (qn, log)
}

/// Engine determinism: a fixed station state and deterministic routing give
/// the same (time, origin, destination) sequence on every run.
#[test]
fn deterministic_replay_produces_identical_transitions() {
    let (mut a, _) = deterministic_net();
    let (mut b, _) = deterministic_net();
    let mut trace_a: Vec<Transition> = Vec::new();
    let mut trace_b: Vec<Transition> = Vec::new();
    loop {
        match a.make_transition() {
            Ok(t) => trace_a.push(t),
            Err(TransitionError::NoExitFound) => break,
            Err(e) => panic!("unexpected error: {e:?}"),
        }
    }
    loop {
        match b.make_transition() {
            Ok(t) => trace_b.push(t),
            Err(TransitionError::NoExitFound) => break,
            Err(e) => panic!("unexpected error: {e:?}"),
        }
    }
    assert_eq!(trace_a.len(), trace_b.len());
    assert!(!trace_a.is_empty());
    for (x, y) in trace_a.iter().zip(trace_b.iter()) {
        assert_eq!((x.time, x.origin, x.destination), (y.time, y.origin, y.destination));
    }
    // Simulated time never decreases along the run.
    for w in trace_a.windows(2) {
        assert!(w[0].time <= w[1].time);
    }
}

/// An exhausted finite source reports the clean termination signal.
#[test]
fn no_exit_found_on_exhaustion() {
    let mut qn: QNet<ConstantDistribution> = QNet::new();
    let source = qn.add_queue(Station::TraceGen(TraceGenerator::new(
        vec![(5, 1), (9, 2)],
        0,
    )));
    let log = qn.add_queue(Station::Logger(FileLogger::new(8)));
    qn.add_transition(source, RoutePolicy::To(log));
    assert!(qn.make_transition().is_ok());
    assert!(qn.make_transition().is_ok());
    match qn.make_transition() {
        Err(TransitionError::NoExitFound) => (),
        other => panic!("expected NoExitFound, got {other:?}"),
    }
}

/// A station with a pending exit but no routing is a configuration error.
#[test]
fn no_transition_found_without_routing() {
    let mut qn: QNet<ConstantDistribution> = QNet::new();
    let source = qn.add_queue(Station::TraceGen(TraceGenerator::new(vec![(1, 0)], 0)));
    let _log = qn.add_queue(Station::Logger(FileLogger::new(8)));
    match qn.make_transition() {
        Err(TransitionError::NoTransitionFound(o)) => assert_eq!(o, source),
        other => panic!("expected NoTransitionFound, got {other:?}"),
    }
}

/// A routing beyond the station range surfaces as the signalling error,
/// carrying the popped request.
#[test]
fn destination_out_of_bound_carries_request() {
    let mut qn: QNet<ConstantDistribution> = QNet::new();
    let source = qn.add_queue(Station::TraceGen(TraceGenerator::new(vec![(3, 42)], 0)));
    qn.add_transition(source, RoutePolicy::To(usize::MAX));
    match qn.make_transition() {
        Err(TransitionError::DestinationOutOfBound(ob)) => {
            assert_eq!(ob.origin, source);
            assert_eq!(ob.destination, usize::MAX);
            assert_eq!(ob.time, 3);
            assert_eq!(ob.request.get_content(), 42);
        },
        other => panic!("expected DestinationOutOfBound, got {other:?}"),
    }
}

/// Cache-driven routing: hits and misses take their configured branches and
/// the admission filter sees every key exactly once per pass.
#[test]
fn cache_check_and_set_routes_by_membership() {
    let mut qn: QNet<ConstantDistribution> = QNet::new();
    let records = vec![(1, 8), (2, 9), (3, 8)];
    let source = qn.add_queue(Station::TraceGen(TraceGenerator::new(records, 0)));
    let hit_log = qn.add_queue(Station::Logger(FileLogger::new(8)));
    let miss_log = qn.add_queue(Station::Logger(FileLogger::new(8)));
    let cache = qn.add_cache(CacheBox::Lru(LruCache::new(4)));
    qn.add_transition(
        source,
        RoutePolicy::CacheCheckAndSet { cache, hit: hit_log, miss: miss_log },
    );
    let t1 = qn.make_transition().unwrap();
    assert_eq!(t1.destination, miss_log); // 8 was unknown
    let t2 = qn.make_transition().unwrap();
    assert_eq!(t2.destination, miss_log); // 9 was unknown
    let t3 = qn.make_transition().unwrap();
    assert_eq!(t3.destination, hit_log); // 8 again: hit
}

/// The idle-preference policy watches the configured station's load.
#[test]
fn if_idle_routes_by_load() {
    let mut qn: QNet<ConstantDistribution> = QNet::new();
    let records = vec![(1, 0), (2, 0), (3, 0)];
    let source = qn.add_queue(Station::TraceGen(TraceGenerator::new(records, 0)));
    // A slow server: constant work 1000 at rate 1.
    let server = qn.add_queue(Station::Mg1Ps(Mg1Ps::new(
        1,
        ConstantDistribution::new(1000),
    )));
    let overflow = qn.add_queue(Station::Logger(FileLogger::new(8)));
    qn.add_transition(
        source,
        RoutePolicy::IfIdle { watch: server, then_to: server, else_to: overflow },
    );
    qn.add_transition(server, RoutePolicy::To(overflow));
    let t1 = qn.make_transition().unwrap();
    assert_eq!(t1.destination, server); // idle at first
    let t2 = qn.make_transition().unwrap();
    assert_eq!(t2.destination, overflow); // busy now
    let t3 = qn.make_transition().unwrap();
    assert_eq!(t3.destination, overflow);
}
