use load_balancing_lab::host::Host;
use load_balancing_lab::selector::least_loaded;
use load_balancing_lab::selector::least_loaded_now;
use load_balancing_lab::selector::HashSelector;
use load_balancing_lab::selector::HostSelector;
use load_balancing_lab::selector::HostSnapshot;
use load_balancing_lab::selector::LeastLoadedSelector;
use load_balancing_lab::selector::PowerOfKSelector;
use load_balancing_lab::selector::PowerOfKSelectorWithUpdates;
use load_balancing_lab::selector::RandomSelector;
use load_balancing_lab::selector::RoundRobinSelector;
use load_balancing_lab::selector::SelectorKind;
use load_balancing_lab::selector::SELECTOR_SEED;
use rand::seq::IteratorRandom;
use rand::seq::SliceRandom;
use rand::SeedableRng;
use rand_pcg::Pcg64;

fn view(loads: &[usize]) -> Vec<HostSnapshot> {
    loads.iter().enumerate().map(|(id, requests)| HostSnapshot { id, requests: *requests }).collect()
}

fn hosts(loads: &[usize]) -> Vec<Host> {
    loads
        .iter()
        .enumerate()
        .map(|(id, n)| {
            let mut host = Host::new(id, 1);
            for _ in 0..*n {
                host.requests.push_back(1);
            }
            host
        })
        .collect()
}

#[test]
fn round_robin_takes_the_hosts_in_cyclic_order() {
    let states = view(&[9, 0, 4]);
    let pool = hosts(&[9, 0, 4]);
    let mut selector = RoundRobinSelector::default();
    let ids: Vec<usize> = (0..7).map(|sender| selector.select(&states, &pool, sender).id).collect();
    assert_eq!(ids, vec![0, 1, 2, 0, 1, 2, 0]);
    assert_eq!(selector.ptr, 1);
}

#[test]
fn round_robin_gives_each_host_the_same_share() {
    let states = view(&[0, 0, 0, 0]);
    let pool = hosts(&[0, 0, 0, 0]);
    for start in 0..4 {
        let mut selector = RoundRobinSelector { ptr: start };
        let mut received = vec![0; 4];
        for sender in 0..(5 * 4) {
            received[selector.select(&states, &pool, sender).id] += 1;
        }
        assert_eq!(received, vec![5, 5, 5, 5]);
        assert_eq!(selector.ptr, start);
    }
}

#[test]
fn round_robin_in_a_pool_of_one() {
    let states = view(&[3]);
    let pool = hosts(&[3]);
    let mut selector = RoundRobinSelector::default();
    assert_eq!(selector.select(&states, &pool, 0), HostSnapshot { id: 0, requests: 3 });
    assert_eq!(selector.ptr, 0);
    assert_eq!(selector.select(&states, &pool, 0).id, 0);
}

#[test]
fn least_loaded_takes_the_shortest_queue() {
    let mut selector = LeastLoadedSelector {};
    let states = view(&[5, 2, 7]);
    assert_eq!(selector.select(&states, &hosts(&[0, 0, 0]), 0), HostSnapshot { id: 1, requests: 2 });
    let states = view(&[5, 2]);
    assert_eq!(selector.select(&states, &hosts(&[0, 0]), 0).id, 1);
    let states = view(&[2, 5]);
    assert_eq!(selector.select(&states, &hosts(&[0, 0]), 0).id, 0);
}

#[test]
fn least_loaded_resolves_ties_to_the_lower_id() {
    let mut selector = LeastLoadedSelector {};
    let states = view(&[4, 1, 3, 1, 1]);
    assert_eq!(selector.select(&states, &hosts(&[0, 0, 0, 0, 0]), 9).id, 1);
    let states = view(&[0, 0]);
    assert_eq!(selector.select(&states, &hosts(&[0, 0]), 9).id, 0);
}

#[test]
fn least_loaded_goes_by_the_view_and_not_by_the_hosts() {
    let mut selector = LeastLoadedSelector {};
    let states = view(&[1, 0]);
    assert_eq!(selector.select(&states, &hosts(&[0, 8]), 0).id, 1);
}

#[test]
fn first_least_position_by_view_and_by_hosts() {
    let states = view(&[3, 1, 1, 0, 0]);
    assert_eq!(least_loaded(&states), 3);
    assert_eq!(least_loaded_now(&states, &hosts(&[2, 2, 1, 1, 5])), 2);
    // Position and id differ in a sample.
    let sample =
        vec![HostSnapshot { id: 2, requests: 6 }, HostSnapshot { id: 0, requests: 6 }];
    assert_eq!(least_loaded(&sample), 0);
    assert_eq!(least_loaded_now(&sample, &hosts(&[0, 3, 4])), 1);
}

#[test]
fn hash_takes_the_sender_modulo_the_pool_size() {
    let mut selector = HashSelector {};
    let states = view(&[9, 9, 0, 9]);
    let pool = hosts(&[9, 9, 0, 9]);
    assert_eq!(selector.select(&states, &pool, 0).id, 0);
    assert_eq!(selector.select(&states, &pool, 3).id, 3);
    assert_eq!(selector.select(&states, &pool, 4).id, 0);
    assert_eq!(selector.select(&states, &pool, 10), HostSnapshot { id: 2, requests: 0 });
    assert_eq!(selector.select(&states, &pool, usize::MAX).id, usize::MAX % 4);
}

#[test]
fn hash_is_sticky_whatever_the_load() {
    let mut first = HashSelector {};
    let mut second = HashSelector {};
    for sender in 0..50 {
        let a = first.select(&view(&[0, 0, 0]), &hosts(&[0, 0, 0]), sender).id;
        let b = second.select(&view(&[7, 1, 4]), &hosts(&[2, 9, 0]), sender).id;
        let c = first.select(&view(&[1, 1, 1]), &hosts(&[5, 5, 5]), sender).id;
        assert_eq!(a, sender % 3);
        assert_eq!(a, b);
        assert_eq!(a, c);
    }
}

#[test]
fn random_draws_as_the_seeded_generator_does() {
    let states = view(&[4, 0, 2, 8, 1, 1, 3]);
    let pool = hosts(&[0; 7]);
    let mut rng = Pcg64::seed_from_u64(111);
    let mut selector = RandomSelector::default();
    let mut seen = vec![false; 7];
    for sender in 0..200 {
        let expected = *states.choose(&mut rng).unwrap();
        let chosen = selector.select(&states, &pool, sender);
        assert_eq!(chosen, expected);
        assert_eq!(chosen, states[chosen.id]);
        seen[chosen.id] = true;
    }
    assert!(seen.iter().all(|s| *s));
}

#[test]
fn selector_seed_is_111() {
    assert_eq!(SELECTOR_SEED, 111);
}

#[test]
fn power_of_k_takes_the_least_of_its_sample() {
    let states = view(&[4, 0, 2, 8, 1, 1, 3, 6, 6, 2]);
    let pool = hosts(&[0; 10]);
    let mut rng = Pcg64::seed_from_u64(111);
    let mut selector = PowerOfKSelector::new(3);
    assert_eq!(selector.k(), 3);
    let mut ids: Vec<usize> = Vec::new();
    for sender in 0..200 {
        let sample = states.iter().choose_multiple(&mut rng, 3);
        assert_eq!(sample.len(), 3);
        let expected = **sample.iter().min_by_key(|s| s.requests).unwrap();
        let chosen = selector.select(&states, &pool, sender);
        assert_eq!(chosen, expected);
        ids.push(chosen.id);
    }
    // The sample changes from request to request.
    assert!(ids.iter().any(|id| *id != ids[0]));
}

#[test]
fn power_of_k_over_the_whole_pool_is_least_loaded() {
    let states = view(&[4, 2, 2, 8]);
    let pool = hosts(&[0, 0, 0, 0]);
    let mut selector = PowerOfKSelector::new(4);
    for sender in 0..10 {
        assert_eq!(selector.select(&states, &pool, sender).id, 1);
    }
}

#[test]
fn power_of_one_is_a_random_host() {
    let states = view(&[4, 2, 2, 8]);
    let pool = hosts(&[0, 0, 0, 0]);
    let mut rng = Pcg64::seed_from_u64(111);
    let mut selector = PowerOfKSelector::new(1);
    for sender in 0..50 {
        let expected = *states.iter().choose_multiple(&mut rng, 1)[0];
        assert_eq!(selector.select(&states, &pool, sender), expected);
    }
}

#[test]
fn power_of_k_with_updates_reads_the_hosts_themselves() {
    let states = view(&[0, 0, 0, 0, 0, 0, 0, 0]);
    let live = [5, 3, 9, 1, 1, 7, 2, 4];
    let pool = hosts(&live);
    let mut rng = Pcg64::seed_from_u64(111);
    let mut selector = PowerOfKSelectorWithUpdates::new(3);
    assert_eq!(selector.k(), 3);
    for sender in 0..200 {
        let sample = states.iter().choose_multiple(&mut rng, 3);
        let expected = **sample.iter().min_by_key(|s| pool[s.id].requests.len()).unwrap();
        let chosen = selector.select(&states, &pool, sender);
        assert_eq!(chosen, expected);
        // What comes back is the snapshot of the view, stale as it is.
        assert_eq!(chosen.requests, 0);
    }
}

#[test]
fn power_of_k_with_updates_over_the_whole_pool_follows_the_hosts() {
    let states = view(&[0, 9, 9]);
    let mut selector = PowerOfKSelectorWithUpdates::new(3);
    assert_eq!(selector.select(&states, &hosts(&[5, 2, 7]), 0).id, 1);
    assert_eq!(selector.select(&states, &hosts(&[5, 5, 5]), 0).id, 0);
    assert_eq!(selector.select(&states, &hosts(&[3, 2, 1]), 0).id, 2);
}

#[test]
fn selector_knows_its_kind_fit() {
    assert!(SelectorKind::RoundRobin.suits_pool(1));
    assert!(!SelectorKind::RoundRobin.suits_pool(0));
    assert!(!SelectorKind::Hash.suits_pool(0));
    assert!(SelectorKind::PowerOfK(3).suits_pool(3));
    assert!(!SelectorKind::PowerOfK(4).suits_pool(3));
    assert!(!SelectorKind::PowerOfK(0).suits_pool(3));
    assert!(!SelectorKind::PowerOfKWithUpdates(0).suits_pool(3));
    assert!(SelectorKind::PowerOfKWithUpdates(1).suits_pool(1));
    assert!(HostSelector::from_kind(SelectorKind::LeastLoaded).fits_pool(2));
    assert!(!HostSelector::from_kind(SelectorKind::Random).fits_pool(0));
    assert!(!HostSelector::from_kind(SelectorKind::PowerOfK(5)).fits_pool(4));
    assert!(HostSelector::RoundRobin(RoundRobinSelector { ptr: 2 }).fits_pool(3));
    assert!(!HostSelector::RoundRobin(RoundRobinSelector { ptr: 3 }).fits_pool(3));
}

#[test]
fn any_selector_routes_through_the_common_entry() {
    let states = view(&[3, 1, 2]);
    let pool = hosts(&[0, 0, 9]);
    let mut round_robin = HostSelector::from_kind(SelectorKind::RoundRobin);
    assert_eq!(round_robin.select(&states, &pool, 5).id, 0);
    assert_eq!(round_robin.select(&states, &pool, 5).id, 1);
    let mut least = HostSelector::from_kind(SelectorKind::LeastLoaded);
    assert_eq!(least.select(&states, &pool, 5).id, 1);
    let mut hash = HostSelector::from_kind(SelectorKind::Hash);
    assert_eq!(hash.select(&states, &pool, 5).id, 2);
    let mut all = HostSelector::from_kind(SelectorKind::PowerOfK(3));
    assert_eq!(all.select(&states, &pool, 5).id, 1);
    let mut fresh = HostSelector::from_kind(SelectorKind::PowerOfKWithUpdates(3));
    assert_eq!(fresh.select(&states, &pool, 5).id, 0);
    let mut random = HostSelector::from_kind(SelectorKind::Random);
    let mut rng = Pcg64::seed_from_u64(111);
    assert_eq!(random.select(&states, &pool, 5), *states.choose(&mut rng).unwrap());
}
