use qnetsim::distribution::ConstantDistribution;
use qnetsim::queues::centralized_autoscaling_qnetwork::{
    CentralizedLBPolicy, CentralizedLoadBalancingQNet, CentralizedScalingPolicy,
};
use qnetsim::queues::autoscaling_qnetwork::AutoscalingQNet;
use qnetsim::queues::file_logger::FileLogger;
use qnetsim::queues::generator::Generator;
use qnetsim::queues::Station;

fn source() -> Station<ConstantDistribution> {
    Station::Generator(Generator::new(
        ConstantDistribution::new(100),
        ConstantDistribution::new(1),
        0,
    ))
}

fn logger() -> Station<ConstantDistribution> {
    Station::Logger(FileLogger::new(1024))
}

/// A pre-recorded schedule drives the pool size through the deliberate
/// out-of-bound signalling channel: each schedule record re-sizes the pool
/// to its target at its timestamp.
#[test]
fn schedule_drives_server_count() {
    let schedule: Vec<(u64, u64)> = vec![(50, 3), (250, 1)];
    let mut net = CentralizedLoadBalancingQNet::new(
        source(),
        logger(),
        2,
        ConstantDistribution::new(0),
        ConstantDistribution::new(10),
        CentralizedLBPolicy::RND,
        CentralizedScalingPolicy::Schedule(schedule),
    );
    assert_eq!(net.n_servers(), 2);
    let mut saw_three = false;
    let mut saw_one = false;
    for _ in 0..40 {
        net.make_transition().expect("transition");
        if net.n_servers() == 3 {
            saw_three = true;
        }
        if saw_three && net.n_servers() == 1 {
            saw_one = true;
        }
    }
    assert!(saw_three, "upscale to 3 never happened");
    assert!(saw_one, "downscale to 1 never happened");
}

/// An external controller funnels its decisions through the same target
/// interface; removal never evicts anything, the pool only detaches.
#[test]
fn set_server_target_grows_and_shrinks() {
    let mut net = CentralizedLoadBalancingQNet::new(
        source(),
        logger(),
        1,
        ConstantDistribution::new(0),
        ConstantDistribution::new(10),
        CentralizedLBPolicy::JIQ,
        CentralizedScalingPolicy::NoAutoscaling,
    );
    net.set_server_target(4);
    assert_eq!(net.n_servers(), 4);
    net.set_server_target(0);
    assert_eq!(net.n_servers(), 0);
    net.set_server_target(2);
    assert_eq!(net.n_servers(), 2);
    // The network still runs after all the re-wiring.
    for _ in 0..10 {
        net.make_transition().expect("transition");
    }
}

/// The chain composition keeps serving across pool changes, and the tracked
/// station reports load observations around its own events.
#[test]
fn chain_autoscaling_runs_and_tracks() {
    // Service much slower than the inter-arrival gap, so the first server
    // stays busy and traffic spills down the chain to the tracked one.
    let mut net = AutoscalingQNet::new(
        source(),
        logger(),
        2,
        ConstantDistribution::new(0),
        ConstantDistribution::new(1000),
    );
    assert_eq!(net.n_servers(), 2);
    let mut tracked_events = 0;
    for _ in 0..50 {
        let tr = net.make_transition().expect("transition");
        if let Some((t, _load)) = net.tracked_event(&tr) {
            assert_eq!(t, tr.time);
            tracked_events += 1;
        }
    }
    assert!(tracked_events > 0, "tracked station saw no events");
    net.add_server();
    assert_eq!(net.n_servers(), 3);
    net.remove_server();
    net.remove_server();
    assert_eq!(net.n_servers(), 1);
    for _ in 0..20 {
        net.make_transition().expect("transition");
    }
    let done = net.drain_logged();
    assert!(!done.is_empty());
}
