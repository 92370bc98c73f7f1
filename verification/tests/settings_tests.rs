use pool_miner::settings::{
    bus_at, check_num_cores, core_warning, find_bus, random_depth, Minersettings, BUS_COUNT,
    DEFAULT_BUFFER_SECONDS, DEFAULT_THREADS,
};

#[test]
fn absent_numbers_fall_back_to_the_defaults() {
    let settings = Minersettings::new(None, None, 77, [1; 32], String::from("http://node"));
    assert_eq!(settings.threads, 96);
    assert_eq!(settings.buffer, 5);
    assert_eq!(settings.threads, DEFAULT_THREADS);
    assert_eq!(settings.buffer, DEFAULT_BUFFER_SECONDS);
    assert_eq!(settings.depth, 77);
    assert_eq!(settings.miner, [1; 32]);
    assert_eq!(settings.rpc, "http://node");
}

#[test]
fn given_numbers_are_kept() {
    let settings = Minersettings::new(Some(8), Some(0), 50, [2; 32], String::new());
    assert_eq!(
        settings,
        Minersettings { threads: 8, buffer: 0, depth: 50, miner: [2; 32], rpc: String::new() }
    );
    let mixed = Minersettings::new(None, Some(9), 50, [2; 32], String::new());
    assert_eq!((mixed.threads, mixed.buffer), (96, 9));
}

#[test]
fn a_random_depth_lies_between_50_and_500() {
    let mut seen_different = false;
    let first = random_depth();
    for _ in 0..200 {
        let depth = random_depth();
        assert!((50..=500).contains(&depth));
        seen_different = seen_different || depth != first;
    }
    assert!(seen_different);
}

#[test]
fn a_warning_is_due_when_threads_outnumber_cores() {
    assert_eq!(core_warning(9, 8), Some(8));
    assert_eq!(core_warning(8, 8), None);
    assert_eq!(core_warning(1, 8), None);
    assert_eq!(core_warning(0, 0), None);
    assert_eq!(core_warning(u64::MAX, 1), Some(1));
}

#[test]
fn this_machine_has_at_least_one_core() {
    assert_eq!(check_num_cores(0), None);
    assert_eq!(check_num_cores(1), None);
    let cores = num_cpus::get() as u64;
    assert_eq!(check_num_cores(cores), None);
    assert_eq!(check_num_cores(cores + 1), Some(cores));
    assert_eq!(check_num_cores(u64::MAX), Some(cores));
}

#[test]
fn the_buses_are_those_of_the_program() {
    assert_eq!(BUS_COUNT, ore_api::consts::BUS_COUNT);
    for index in 0..BUS_COUNT {
        assert_eq!(bus_at(index), Some(ore_api::consts::BUS_ADDRESSES[index].to_bytes()));
    }
    for i in 0..BUS_COUNT {
        for j in 0..i {
            assert_ne!(bus_at(i), bus_at(j));
        }
    }
}

#[test]
fn there_is_no_bus_past_the_eighth() {
    assert_eq!(BUS_COUNT, 8);
    assert!(bus_at(7).is_some());
    assert_eq!(bus_at(8), None);
    assert_eq!(bus_at(usize::MAX), None);
}

#[test]
fn a_random_bus_is_one_of_the_eight() {
    let buses: Vec<Option<[u8; 32]>> = (0..BUS_COUNT).map(bus_at).collect();
    for _ in 0..100 {
        assert!(buses.contains(&Some(find_bus())));
    }
}
