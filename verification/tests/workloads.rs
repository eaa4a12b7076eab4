use load_balancing_lab::workload::preset_by_name;
use load_balancing_lab::workload::Preset;
use load_balancing_lab::workload::Workload;

#[test]
fn presets_are_read_by_name() {
    assert_eq!(preset_by_name("skewed"), Preset::Skewed);
    assert_eq!(preset_by_name("balanced"), Preset::Balanced);
    assert_eq!(preset_by_name("Skewed"), Preset::Balanced);
    assert_eq!(preset_by_name("skewed "), Preset::Balanced);
    assert_eq!(preset_by_name(""), Preset::Balanced);
}

#[test]
fn balanced_senders_send_at_the_same_rate() {
    let mut workload = Workload::new(Preset::Balanced, 3, 10);
    for _ in 0..3 {
        assert_eq!(workload.rate(), Some(1));
        assert_eq!(workload.advance(11), None);
    }
    assert_eq!(workload.rate(), None);
}

#[test]
fn first_skewed_sender_sends_fifty_times_as_often() {
    let mut workload = Workload::new(Preset::Skewed, 3, 10);
    assert_eq!(workload.rate(), Some(50));
    assert_eq!(workload.advance(11), None);
    assert_eq!(workload.rate(), Some(1));
    assert_eq!(workload.advance(11), None);
    assert_eq!(workload.rate(), Some(1));
    assert_eq!(workload.advance(11), None);
    assert_eq!(workload.rate(), None);
}

#[test]
fn gaps_add_up_to_arrival_times() {
    let mut workload = Workload::new(Preset::Balanced, 2, 10);
    assert_eq!(workload.advance(4), Some((0, 4)));
    assert_eq!(workload.advance(0), Some((0, 4)));
    assert_eq!(workload.advance(5), Some((0, 9)));
    assert_eq!(workload.advance(2), None);
    assert_eq!(workload.advance(3), Some((1, 3)));
}

#[test]
fn request_at_the_horizon_is_sent() {
    let mut workload = Workload::new(Preset::Balanced, 1, 10);
    assert_eq!(workload.advance(4), Some((0, 4)));
    assert_eq!(workload.advance(6), Some((0, 10)));
    assert_eq!(workload.advance(1), None);
    assert_eq!(workload.rate(), None);
}

#[test]
fn gap_beyond_every_time_ends_the_sender() {
    let mut workload = Workload::new(Preset::Balanced, 2, u64::MAX);
    assert_eq!(workload.advance(u64::MAX), Some((0, u64::MAX)));
    assert_eq!(workload.advance(1), None);
    assert_eq!(workload.advance(7), Some((1, 7)));
    assert_eq!(workload.advance(u64::MAX), None);
    assert_eq!(workload.rate(), None);
}

#[test]
fn workload_without_senders_is_done() {
    let workload = Workload::new(Preset::Skewed, 0, 10);
    assert_eq!(workload.rate(), None);
}

#[test]
fn same_gaps_give_the_same_requests() {
    let gaps = [3, 1, 4, 1, 5, 9, 2, 6, 5, 3, 5, 8, 9, 7, 9];
    let run = || {
        let mut workload = Workload::new(Preset::Skewed, 4, 12);
        let mut requests = Vec::new();
        let mut next = 0;
        while workload.rate().is_some() {
            if let Some(request) = workload.advance(gaps[next % gaps.len()]) {
                requests.push(request);
            }
            next += 1;
        }
        requests
    };
    let first = run();
    assert_eq!(first, run());
    assert_eq!(
        first,
        vec![(0, 3), (0, 4), (0, 8), (0, 9), (1, 9), (1, 11), (2, 5), (2, 8), (3, 8)]
    );
}
