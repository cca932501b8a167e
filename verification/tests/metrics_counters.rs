use zephyr_rust_metrics::metrics::{
    add_sleep, collect, current_interval, derive_status, note_ack, note_attempt, note_fail,
    set_interval, Counters, HostSample, Metrics,
};

fn sample() -> HostSample {
    HostSample {
        uptime_ms: 10_000,
        cpu_usage: 35,
        free_heap: 9000,
        stack_usage_pct: 40,
        active_threads: 6,
        battery_mv: 0,
        signal_dbm: -61,
        bytes_tx: 1000,
        bytes_rx: 2000,
        transport_errors: 0,
        tcp_retransmissions: 4,
        reset_count: 1,
    }
}

fn healthy() -> Metrics {
    let c = Counters::new();
    collect(&sample(), &c)
}

#[test]
fn counters_start_empty() {
    let c = Counters::new();
    assert_eq!(c.send_total, 0);
    assert_eq!(c.send_ok, 0);
    assert_eq!(current_interval(&c), 2);
}

#[test]
fn note_functions_update_counters() {
    let mut c = Counters::new();
    note_attempt(&mut c);
    note_fail(&mut c, 30);
    note_fail(&mut c, 40);
    assert_eq!(c.consec_failures, 2);
    assert_eq!(c.last_send_ms, 40);
    note_attempt(&mut c);
    note_ack(&mut c, 12);
    assert_eq!(c.send_total, 2);
    assert_eq!(c.send_ok, 1);
    assert_eq!(c.consec_failures, 0);
    assert_eq!(c.last_send_ms, 12);
    add_sleep(&mut c, 2000);
    add_sleep(&mut c, 3000);
    assert_eq!(c.sleep_ms_total, 5000);
    set_interval(&mut c, 60);
    assert_eq!(current_interval(&c), 60);
}

#[test]
fn collect_copies_raw_and_derives() {
    let mut c = Counters::new();
    note_attempt(&mut c);
    note_ack(&mut c, 9);
    note_attempt(&mut c);
    note_fail(&mut c, 11);
    note_attempt(&mut c);
    note_fail(&mut c, 13);
    add_sleep(&mut c, 4000);
    let m = collect(&sample(), &c);
    assert_eq!(m.uptime_ms, 10_000);
    assert_eq!(m.cpu_usage_pct, 35);
    assert_eq!(m.energy_proxy, 3000);
    assert_eq!(m.tx_success_rate, 33);
    assert_eq!(m.consecutive_failures, 2);
    assert_eq!(m.last_send_duration_ms, 13);
    assert_eq!(m.sleep_ratio_pct, 40);
    assert_eq!(m.coap_retransmissions, 4);
    assert_eq!(m.signal_dbm, -61);
}

#[test]
fn success_rate_is_100_before_any_send() {
    assert_eq!(healthy().tx_success_rate, 100);
}

#[test]
fn energy_proxy_saturates() {
    let mut s = sample();
    s.bytes_tx = u32::MAX - 5;
    s.bytes_rx = 10;
    let m = collect(&s, &Counters::new());
    assert_eq!(m.energy_proxy, u32::MAX);
}

#[test]
fn sleep_ratio_is_zero_without_uptime_and_capped() {
    let mut c = Counters::new();
    add_sleep(&mut c, 50_000);
    let mut s = sample();
    s.uptime_ms = 0;
    assert_eq!(collect(&s, &c).sleep_ratio_pct, 0);
    s.uptime_ms = 10_000;
    assert_eq!(collect(&s, &c).sleep_ratio_pct, 100);
}

#[test]
fn status_priority() {
    let mut m = healthy();
    assert_eq!(derive_status(&m), b"ok");
    m.stack_usage_pct = 86;
    assert_eq!(derive_status(&m), b"stack_overflow_risk");
    m.tx_success_rate = 69;
    assert_eq!(derive_status(&m), b"net_degraded");
    m.consecutive_failures = 3;
    assert_eq!(derive_status(&m), b"link_down");
    m.free_heap_bytes = 4095;
    assert_eq!(derive_status(&m), b"heap_low");
    m.cpu_usage_pct = 81;
    assert_eq!(derive_status(&m), b"cpu_saturated");
}

#[test]
fn status_thresholds_are_strict_where_written() {
    let mut m = healthy();
    m.cpu_usage_pct = 80;
    m.free_heap_bytes = 4096;
    m.consecutive_failures = 2;
    m.tx_success_rate = 70;
    m.stack_usage_pct = 85;
    assert_eq!(derive_status(&m), b"ok");
}
