use load_balancing_lab::balancer::BalancerAction;
use load_balancing_lab::balancer::BalancerEvent;
use load_balancing_lab::balancer::LoadBalancer;
use load_balancing_lab::config::Config;
use load_balancing_lab::events::RequestArrivalEvent;
use load_balancing_lab::events::RequestEndEvent;
use load_balancing_lab::events::SyncEvent;
use load_balancing_lab::log::LogEntry;
use load_balancing_lab::pool::HostPool;
use rand::Rng;
use rand::SeedableRng;
use rand_pcg::Pcg64;

#[derive(Clone, Copy, Debug, PartialEq)]
enum Signal {
    Sync { balancer: usize },
    Request { balancer: usize, event: RequestArrivalEvent },
    End { host: usize },
}

/// What one run leaves behind.
struct Run {
    pool: HostPool,
    /// For each routed request: its arrival time, the host that took it, and the time of
    /// the refresh from which the view in use dates.
    routed: Vec<(u64, usize, Option<u64>)>,
}

/// A small event loop: events are delivered in the order of their times, and events of
/// one time in the order in which they were scheduled.
struct Scheduler {
    pending: Vec<(u64, u64, Signal)>,
    scheduled: u64,
}

impl Scheduler {
    fn schedule(&mut self, time: u64, signal: Signal) {
        self.pending.push((time, self.scheduled, signal));
        self.scheduled += 1;
    }

    fn next(&mut self, until: u64) -> Option<(u64, Signal)> {
        let at = (0..self.pending.len()).min_by_key(|i| (self.pending[*i].0, self.pending[*i].1))?;
        if self.pending[at].0 > until {
            return None;
        }
        let (time, _, signal) = self.pending.remove(at);
        Some((time, signal))
    }
}

fn run(
    hosts: u32,
    mixed: bool,
    config: &Config,
    requests: &[(u64, usize, u32, usize)],
    until: u64,
) -> Run {
    let mut pool = HostPool::new(hosts, mixed);
    let mut balancers: Vec<LoadBalancer> = config.build_balancers(hosts as usize).ok().unwrap();
    let mut synced_at: Vec<Option<u64>> = vec![None; balancers.len()];
    let mut scheduler = Scheduler { pending: Vec::new(), scheduled: 0 };
    for balancer in 0..balancers.len() {
        scheduler.schedule(0, Signal::Sync { balancer });
    }
    for (time, balancer, processing_time, sender) in requests.iter().copied() {
        let event = RequestArrivalEvent { processing_time, sender };
        scheduler.schedule(time, Signal::Request { balancer, event });
    }
    let mut routed = Vec::new();
    while let Some((time, signal)) = scheduler.next(until) {
        match signal {
            Signal::Sync { balancer } => {
                match balancers[balancer].on(BalancerEvent::Sync(SyncEvent {}), time, &mut pool) {
                    BalancerAction::Resync { after } => {
                        scheduler.schedule(time + after, Signal::Sync { balancer })
                    }
                    other => panic!("{:?}", other),
                }
                synced_at[balancer] = Some(time);
            }
            Signal::Request { balancer, event } => {
                match balancers[balancer].on(BalancerEvent::RequestArrival(event), time, &mut pool) {
                    BalancerAction::Forward { host, due } => {
                        routed.push((time, host, synced_at[balancer]));
                        if let Some(delay) = due {
                            scheduler.schedule(time + delay, Signal::End { host });
                        }
                    }
                    other => panic!("{:?}", other),
                }
            }
            Signal::End { host } => {
                assert!(pool.queue_length(host) > 0);
                if let Some(delay) = pool.on_request_end(host, RequestEndEvent {}, time) {
                    scheduler.schedule(time + delay, Signal::End { host });
                }
            }
        }
    }
    Run { pool, routed }
}

fn config(balancer: &str, n_balancers: u32, sync_interval: u64) -> Config {
    Config { balancer: balancer.to_string(), n_balancers, sync_interval }
}

#[test]
fn three_hosts_round_robin_six_requests() {
    let requests: Vec<(u64, usize, u32, usize)> = (0..6).map(|t| (t, 0, 2, t as usize)).collect();
    let done = run(3, false, &config("RoundRobin", 1, 5), &requests, 100);
    let hosts: Vec<usize> = done.routed.iter().map(|r| r.1).collect();
    assert_eq!(hosts, vec![0, 1, 2, 0, 1, 2]);
    let series = done.pool.max_queue_series();
    assert_eq!(series.len(), 12);
    assert!(series.iter().all(|point| point.1 <= 1));
    assert_eq!(
        *done.pool.log(),
        vec![
            (0, LogEntry::Arrival(0)),
            (1, LogEntry::Arrival(1)),
            (2, LogEntry::Arrival(2)),
            (2, LogEntry::Departure(0)),
            (3, LogEntry::Arrival(0)),
            (3, LogEntry::Departure(1)),
            (4, LogEntry::Arrival(1)),
            (4, LogEntry::Departure(2)),
            (5, LogEntry::Arrival(2)),
            (5, LogEntry::Departure(0)),
            (6, LogEntry::Departure(1)),
            (7, LogEntry::Departure(2)),
        ]
    );
    assert_eq!(
        series,
        vec![
            (0, 1),
            (1, 1),
            (2, 1),
            (2, 1),
            (3, 1),
            (3, 1),
            (4, 1),
            (4, 1),
            (5, 1),
            (5, 1),
            (6, 1),
            (7, 0),
        ]
    );
    assert_eq!(done.pool.served_totals(), vec![2, 2, 2]);
}

#[test]
fn routed_request_sees_a_view_younger_than_the_interval() {
    // No request bears the time of a refresh: refreshes fall on multiples of 5.
    let requests: Vec<(u64, usize, u32, usize)> =
        (0..40).map(|i| (1 + 5 * (i / 4) + i % 4, (i % 2) as usize, 3, i as usize)).collect();
    for name in ["RoundRobin", "LeastLoaded", "Hash", "Random", "PowerOfK[k=2]", "PowerOfKWithUpdates[k=2]"] {
        let done = run(4, false, &config(name, 2, 5), &requests, 1000);
        assert_eq!(done.routed.len(), 40);
        for (time, _, synced_at) in done.routed.iter() {
            let synced_at = synced_at.unwrap();
            assert!(synced_at <= *time);
            assert!(*time - synced_at < 5, "{}", name);
        }
    }
}

#[test]
fn request_at_the_time_of_a_refresh_sees_the_old_view() {
    // The request was scheduled before the refresh of its time, and is delivered first.
    let done = run(2, false, &config("LeastLoaded", 1, 5), &[(1, 0, 100, 0), (5, 0, 100, 1)], 50);
    assert_eq!(done.routed, vec![(1, 0, Some(0)), (5, 0, Some(0))]);
}

#[test]
fn stale_view_piles_requests_on_one_host() {
    let requests: Vec<(u64, usize, u32, usize)> = (1..5).map(|t| (t, 0, 100, 0)).collect();
    let done = run(3, false, &config("LeastLoaded", 1, 1000), &requests, 50);
    assert_eq!(done.routed.iter().map(|r| r.1).collect::<Vec<_>>(), vec![0, 0, 0, 0]);
    assert_eq!(done.pool.max_queue_series(), vec![(1, 1), (2, 2), (3, 3), (4, 4)]);
    // With a refresh between any two requests the load spreads.
    let done = run(3, false, &config("LeastLoaded", 1, 1), &requests, 50);
    assert_eq!(done.routed.iter().map(|r| r.1).collect::<Vec<_>>(), vec![0, 1, 2, 0]);
    // Reading the hosts themselves spreads it at once.
    let done = run(3, false, &config("PowerOfKWithUpdates[k=3]", 1, 1000), &requests, 50);
    assert_eq!(done.routed.iter().map(|r| r.1).collect::<Vec<_>>(), vec![0, 1, 2, 0]);
}

#[test]
fn slow_hosts_hold_their_requests_longer() {
    let requests: Vec<(u64, usize, u32, usize)> = vec![(0, 0, 10, 0), (0, 0, 10, 1)];
    let done = run(20, true, &config("Hash", 1, 5), &requests, 1000);
    assert_eq!(
        *done.pool.log(),
        vec![
            (0, LogEntry::Arrival(0)),
            (0, LogEntry::Arrival(1)),
            (10, LogEntry::Departure(1)),
            (50, LogEntry::Departure(0)),
        ]
    );
}

#[test]
fn run_stops_at_its_time_limit() {
    let requests: Vec<(u64, usize, u32, usize)> = vec![(0, 0, 10, 0), (3, 0, 10, 1), (30, 0, 10, 2)];
    let done = run(2, false, &config("RoundRobin", 1, 5), &requests, 12);
    assert_eq!(
        *done.pool.log(),
        vec![(0, LogEntry::Arrival(0)), (3, LogEntry::Arrival(1)), (10, LogEntry::Departure(0))]
    );
    assert_eq!(done.pool.queue_length(0), 0);
    assert_eq!(done.pool.queue_length(1), 1);
    assert_eq!(done.pool.served_totals(), vec![1, 0]);
}

#[test]
fn same_run_twice_gives_the_same_trace() {
    let requests: Vec<(u64, usize, u32, usize)> =
        (0..200).map(|i| (i * 3 % 97, (i % 3) as usize, 1 + (i * 7 % 11) as u32, i as usize)).collect();
    for name in ["RoundRobin", "LeastLoaded", "Hash", "Random", "PowerOfK[k=3]", "PowerOfKWithUpdates[k=3]"] {
        let first = run(8, true, &config(name, 3, 4), &requests, 10_000);
        let second = run(8, true, &config(name, 3, 4), &requests, 10_000);
        assert_eq!(first.pool.log().len(), 400);
        assert_eq!(first.pool.log(), second.pool.log());
        assert_eq!(first.routed, second.routed);
        assert_eq!(first.pool.max_queue_series(), second.pool.max_queue_series());
    }
}

/// The sum, over the records of a run, of the length of the longest queue, and the number
/// of records.
fn summed_longest_queue(name: &str, seed: u64) -> (usize, usize) {
    let mut rng = Pcg64::seed_from_u64(seed);
    let mut requests: Vec<(u64, usize, u32, usize)> = Vec::new();
    let mut time = 0;
    for sender in 0..2000 {
        time += rng.gen_range(0..3);
        requests.push((time, 0, rng.gen_range(5..25), sender));
    }
    let done = run(10, false, &config(name, 1, 200), &requests, 1_000_000);
    let series = done.pool.max_queue_series();
    assert_eq!(series.len(), 4000);
    (series.iter().map(|point| point.1).sum(), series.len())
}

#[test]
fn fresh_read_does_no_worse_than_the_stale_view_on_average() {
    let mut stale = 0;
    let mut fresh = 0;
    for seed in 0..20 {
        stale += summed_longest_queue("PowerOfK[k=2]", seed).0;
        fresh += summed_longest_queue("PowerOfKWithUpdates[k=2]", seed).0;
    }
    assert!(fresh <= stale, "fresh {} stale {}", fresh, stale);
}
