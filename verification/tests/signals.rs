use gene_core::signal::bus::SignalIdAllocator;
use gene_core::signal::flux::{classify_flux_message, FluxEvent, QuakeField};
use gene_core::signal::types::SignalId;
use gene_core::signal::world::{
    parse_cpu_stat, parse_ctx_switches, parse_diskstats, parse_mem_available, parse_net_dev, parse_swap,
    WorldCounters, WorldSignalPoller,
};

#[test]
fn signal_id_display() {
    assert_eq!(SignalId(7).to_string(), "s_0007");
    assert_eq!(SignalId(123).to_string(), "s_0123");
    assert_eq!(SignalId(12345).to_string(), "s_12345");
}

#[test]
fn net_dev_sums_non_loopback() {
    let content = "Inter-|   Receive                                                |  Transmit\n face |bytes    packets errs drop fifo frame compressed multicast|bytes    packets errs drop fifo colls carrier compressed\n    lo: 5000 10 0 0 0 0 0 0 5000 10 0 0 0 0 0 0\n  eth0: 1000 5 0 0 0 0 0 0 300 3 0 0 0 0 0 0\n  wlan0: 20 1 0 0 0 0 0 0 7 1 0 0 0 0 0 0\n";
    assert_eq!(parse_net_dev(content), Some((1020, 307)));
    assert_eq!(parse_net_dev(""), Some((0, 0)));
    let huge = "h\nh\na: 18446744073709551615 0 0 0 0 0 0 0 0\nb: 1 0 0 0 0 0 0 0 0\n";
    assert_eq!(parse_net_dev(huge), None);
}

#[test]
fn diskstats_whole_disks_only() {
    let content = "   8       0 sda 100 0 40 0 50 0 60 0 0 0 0 0 0 0\n   8       1 sda1 100 0 999 0 50 0 999 0 0 0 0 0 0 0\n 259 0 nvme0n1 1 0 5 0 1 0 6 0 0 0 0 0 0 0\n 259 1 nvme0n1p1 1 0 500 0 1 0 600 0 0 0 0 0 0 0\n   7 0 loop0 1 0 70 0 1 0 80 0 0 0 0 0 0 0\n";
    assert_eq!(parse_diskstats(content), Some(111));
}

#[test]
fn cpu_stat_total_and_iowait() {
    let content = "cpu  10 20 30 40 50 60 70 0 0 0\ncpu0 1 2 3 4 5 6 7 0 0 0\n";
    assert_eq!(parse_cpu_stat(content), Some((280, 50)));
    assert_eq!(parse_cpu_stat("cpu 1 2 3\n"), Some((0, 0)));
}

#[test]
fn ctx_switches_summed() {
    let content = "Name:\tgene\nvoluntary_ctxt_switches:\t150\nnonvoluntary_ctxt_switches:\t25\n";
    assert_eq!(parse_ctx_switches(content), Some(175));
}

#[test]
fn swap_and_memory() {
    let content = "MemTotal:       16000000 kB\nMemFree:         1000 kB\nMemAvailable:    4000000 kB\nSwapTotal:       2000 kB\nSwapFree:        500 kB\n";
    assert_eq!(parse_swap(content), (2000, 1500));
    assert_eq!(parse_mem_available(content), (16000000, 4000000));
    assert_eq!(parse_swap("SwapTotal: 100 kB\nSwapFree: 400 kB\n"), (100, 0));
    assert_eq!(parse_mem_available(""), (0, 0));
}

fn counters(v: u64) -> WorldCounters {
    WorldCounters { net_rx_bytes: v, net_tx_bytes: v, disk_sectors: v, cpu_total: v, cpu_iowait: v, ctx_switches: v }
}

#[test]
fn poller_first_reading_is_baseline() {
    let mut p = WorldSignalPoller::new();
    assert!(p.poll(counters(100)).is_none());
    let d = p.poll(counters(150)).unwrap();
    assert_eq!(d.net_rx_bytes, 50);
    assert_eq!(d.ctx_switches, 50);
    // a counter that went backwards gives 0, not an underflow
    let d = p.poll(counters(10)).unwrap();
    assert_eq!(d.cpu_total, 0);
}

#[test]
fn flux_messages() {
    match classify_flux_message(Some("state_update"), Some("flux-earthquakes/us123"), Some("magnitude"), true) {
        FluxEvent::Update { entity_id, field } => {
            assert_eq!(entity_id, "flux-earthquakes/us123");
            assert_eq!(field, Some(QuakeField::Magnitude));
        }
        _ => panic!("expected an update"),
    }
    match classify_flux_message(Some("state_update"), Some("flux-earthquakes/x"), Some("place"), true) {
        FluxEvent::Update { field, .. } => assert_eq!(field, None),
        _ => panic!("expected an update"),
    }
    match classify_flux_message(Some("state_update"), Some("flux-earthquakes/x"), Some("time"), true) {
        FluxEvent::Update { field, .. } => assert_eq!(field, Some(QuakeField::Time)),
        _ => panic!("expected an update"),
    }
    assert!(matches!(
        classify_flux_message(Some("state_update"), Some("weather/x"), Some("sig"), true),
        FluxEvent::Ignore
    ));
    assert!(matches!(
        classify_flux_message(Some("state_update"), Some("flux-earthquakes/x"), Some("sig"), false),
        FluxEvent::Ignore
    ));
    match classify_flux_message(Some("entity_deleted"), Some("flux-earthquakes/y"), None, false) {
        FluxEvent::Delete { entity_id } => assert_eq!(entity_id, "flux-earthquakes/y"),
        _ => panic!("expected a deletion"),
    }
    assert!(matches!(classify_flux_message(Some("metrics_update"), None, None, true), FluxEvent::Ignore));
    assert!(matches!(classify_flux_message(None, Some("flux-earthquakes/y"), None, true), FluxEvent::Ignore));
}

#[test]
fn allocator_hands_out_fresh_ids() {
    let mut a = SignalIdAllocator::new();
    a.reserve(SignalId(0));
    a.reserve(SignalId(31));
    a.reserve(SignalId(5));
    assert_eq!(a.allocate(), SignalId(32));
    assert_eq!(a.allocate(), SignalId(33));
}
