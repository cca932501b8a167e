use zephyr_rust_metrics::padre::{
    compute_defer, decide, decision_fits, in_survival, sleep_secs, Padre,
};
use zephyr_rust_metrics::metrics::Metrics;

fn m(cpu: u32) -> Metrics {
    Metrics {
        uptime_ms: 1000,
        cpu_usage_pct: cpu,
        free_heap_bytes: 20_000,
        stack_usage_pct: 30,
        active_threads: 4,
        battery_mv: 0,
        energy_proxy: 0,
        last_send_duration_ms: 0,
        tx_success_rate: 100,
        consecutive_failures: 0,
        signal_dbm: -60,
        bytes_tx: 0,
        bytes_rx: 0,
        transport_errors: 0,
        coap_retransmissions: 0,
        sleep_ratio_pct: 0,
        reset_count: 0,
    }
}

#[test]
fn first_decision_emits() {
    let mut p = Padre::new();
    assert!(decide(&mut p, &m(50), 1));
    assert!(p.inited);
    assert_eq!(p.s, 50);
    assert_eq!(p.r, 50);
    assert_eq!(p.d, 0);
    assert_eq!(p.age, 0);
}

#[test]
fn steady_reading_emits_only_on_heartbeat() {
    let mut p = Padre::new();
    assert!(decide(&mut p, &m(50), 1));
    for t in 2..16 {
        assert!(!decide(&mut p, &m(50), t), "cycle {}", t);
    }
    assert_eq!(p.age, 14);
    // the 15th cycle since the last emission is forced
    assert!(decide(&mut p, &m(50), 16));
    assert_eq!(p.age, 0);
}

#[test]
fn change_beyond_deadband_emits() {
    let mut p = Padre::new();
    assert!(decide(&mut p, &m(50), 1));
    // |60 - 50| = 10 >= delta (at most 10), age 1 >= kmin 1
    assert!(decide(&mut p, &m(60), 2));
    assert_eq!(p.r, 60);
    // EWMA: 50 + (60 - 50) / 8 = 51; deviation |60 - 51| = 9; MAD 0 + 9 / 8 = 1
    assert_eq!(p.s, 51);
    assert_eq!(p.d, 1);
}

#[test]
fn small_change_stays_silent() {
    let mut p = Padre::new();
    assert!(decide(&mut p, &m(50), 1));
    // |52 - 50| = 2 < DELTA_MIN = 3
    assert!(!decide(&mut p, &m(52), 2));
    assert_eq!(p.r, 50);
    assert_eq!(p.age, 1);
}

#[test]
fn ewma_rounds_down_on_falling_readings() {
    let mut p = Padre::new();
    assert!(decide(&mut p, &m(50), 1));
    decide(&mut p, &m(40), 2);
    // 50 + floor(-10 / 8) = 50 - 2 = 48
    assert_eq!(p.s, 48);
}

#[test]
fn critical_alert_preempts_and_is_rate_limited() {
    let mut p = Padre::new();
    assert!(decide(&mut p, &m(50), 1));
    let mut low = m(50);
    low.free_heap_bytes = 100;
    assert!(decide(&mut p, &low, 2));
    assert!(p.has_crit);
    assert_eq!(p.crit_ts, 2);
    // still alarming, but within the rate limit: silent
    for t in 3..10 {
        assert!(!decide(&mut p, &low, t), "cycle {}", t);
    }
    let mut p2 = p;
    // 30 cycles after the last alert, the alarm passes again
    p2.age = 0;
    assert!(decide(&mut p2, &low, 32));
    assert_eq!(p2.crit_ts, 32);
}

#[test]
fn new_transport_errors_are_critical() {
    let mut p = Padre::new();
    assert!(decide(&mut p, &m(50), 1));
    let mut e = m(50);
    e.transport_errors = 1;
    assert!(decide(&mut p, &e, 2));
    assert_eq!(p.last_err, 1);
    assert!(!decide(&mut p, &e, 3));
}

#[test]
fn low_battery_enters_survival() {
    let mut p = Padre::new();
    let mut b = m(50);
    b.battery_mv = 3000;
    assert!(decide(&mut p, &b, 1));
    // the floor is computed on the first cycle after initialisation
    assert!(!in_survival(&p));
    decide(&mut p, &b, 2);
    assert_eq!(p.kmin, 255);
    assert!(in_survival(&p));
    assert_eq!(p.mctr, 29);
}

#[test]
fn energy_floor_from_battery() {
    let mut p = Padre::new();
    let mut b = m(50);
    b.battery_mv = 3400;
    decide(&mut p, &b, 1);
    decide(&mut p, &b, 2);
    // E_t = 3_600_000 * 100 / 900 = 400_000 mC; n = 43_200 cycles;
    // k = ceil(43_200 * 20 / (400_000 - 216_000)) = ceil(4.69...) = 5
    assert_eq!(p.kmin, 5);
    let mut p = Padre::new();
    b.battery_mv = 4200;
    decide(&mut p, &b, 1);
    decide(&mut p, &b, 2);
    assert_eq!(p.kmin, 1);
    let mut p = Padre::new();
    b.battery_mv = 3350;
    decide(&mut p, &b, 1);
    decide(&mut p, &b, 2);
    // E_t = 200_000 <= 216_000: survival
    assert_eq!(p.kmin, 255);
}

#[test]
fn floor_is_recomputed_every_period() {
    let mut p = Padre::new();
    let mut b = m(50);
    b.battery_mv = 4200;
    decide(&mut p, &b, 1);
    decide(&mut p, &b, 2);
    assert_eq!(p.kmin, 1);
    b.battery_mv = 3000;
    for t in 3..32 {
        decide(&mut p, &b, t);
        assert_eq!(p.kmin, 1, "cycle {}", t);
    }
    assert_eq!(p.mctr, 0);
    decide(&mut p, &b, 32);
    assert_eq!(p.kmin, 255);
}

#[test]
fn defer_grows_then_caps_and_resets() {
    let mut p = Padre::new();
    assert_eq!(compute_defer(&mut p, 95), 2);
    assert_eq!(compute_defer(&mut p, 90), 4);
    assert_eq!(compute_defer(&mut p, 99), 4);
    assert_eq!(p.streak, 3);
    assert_eq!(compute_defer(&mut p, 89), 0);
    assert_eq!(p.streak, 0);
}

#[test]
fn sleep_is_clamped() {
    assert_eq!(sleep_secs(false, 2, 0), 2);
    assert_eq!(sleep_secs(false, 1, 0), 2);
    assert_eq!(sleep_secs(false, 5, 4), 9);
    assert_eq!(sleep_secs(false, 300, 0), 10);
    assert_eq!(sleep_secs(true, 1, 0), 10);
    assert_eq!(sleep_secs(true, 1, 4), 10);
}

#[test]
fn reading_is_taken_as_i32() {
    let mut p = Padre::new();
    assert!(decide(&mut p, &m(u32::MAX), 1));
    assert_eq!(p.r, -1);
    assert!(decision_fits(&p, &m(5)));
    // |5 - (-1)| = 6 >= delta
    assert!(decide(&mut p, &m(5), 2));
}

#[test]
fn decision_out_of_i32_range_is_detected() {
    let mut p = Padre::new();
    assert!(decision_fits(&p, &m(0x8000_0000)));
    assert!(decide(&mut p, &m(0x8000_0000), 1));
    assert_eq!(p.s, i32::MIN);
    assert!(!decision_fits(&p, &m(0x7fff_ffff)));
    assert!(!decision_fits(&p, &m(0)));
    assert!(decision_fits(&p, &m(u32::MAX - 4)));
}

#[test]
fn energy_floor_at_the_survival_edge() {
    let mut b = m(50);
    // 3355 mV: E_t = 4000 * 55 = 220_000 mC, k = ceil(864_000 / 4_000) = 216
    b.battery_mv = 3355;
    let mut p = Padre::new();
    decide(&mut p, &b, 1);
    decide(&mut p, &b, 2);
    assert_eq!(p.kmin, 216);
    assert!(!in_survival(&p));
    // 3354 mV: E_t = 216_000 mC does not exceed the idle budget: survival
    b.battery_mv = 3354;
    let mut p = Padre::new();
    decide(&mut p, &b, 1);
    decide(&mut p, &b, 2);
    assert_eq!(p.kmin, 255);
    assert!(in_survival(&p));
}

#[test]
fn percentage_readings_never_leave_i32_range() {
    let mut p = Padre::new();
    let mut t = 0u32;
    for round in 0..3u32 {
        for cpu in 0..=100u32 {
            let c = if round == 1 { 100 - cpu } else { (cpu * 37 + round) % 101 };
            t += 1;
            assert!(decision_fits(&p, &m(c)));
            decide(&mut p, &m(c), t);
            assert!((0..=100).contains(&p.s) && (0..=100).contains(&p.d) && (0..=100).contains(&p.r));
        }
    }
}
