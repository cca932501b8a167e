//! The metric set, the runtime counters, and the derived quantities.
//!
//! The runtime counters (sends, sleep, interval) are updated by the exchange
//! logic and read here to compute the derived quantities. Every derived value
//! is computed here; the server recomputes nothing.
use vstd::prelude::*;
use vstd::string::StringSliceAdditionalSpecFns;
use crate::config::T_C_SECS;

verus! {

// ---------------------------------------------------------------------------
// Runtime counters (shared state), updated by the exchange logic.
// ---------------------------------------------------------------------------

/// Runtime counters of the emission loop.
#[derive(Clone, Copy, Debug)]
pub struct Counters {
    pub send_total: u32,
    pub send_ok: u32,
    pub consec_failures: u32,
    pub last_send_ms: u32,
    pub sleep_ms_total: u32,
    pub current_interval_s: u32,
}

impl Counters {
    /// Counters at start-up: nothing sent, no sleep, the base interval.
    pub fn new() -> (c: Counters)
        ensures
            c == (Counters {
                send_total: 0,
                send_ok: 0,
                consec_failures: 0,
                last_send_ms: 0,
                sleep_ms_total: 0,
                current_interval_s: T_C_SECS,
            }),
    {
        Counters {
            send_total: 0,
            send_ok: 0,
            consec_failures: 0,
            last_send_ms: 0,
            sleep_ms_total: 0,
            current_interval_s: T_C_SECS,
        }
    }
}

/// The counters after one more send attempt.
pub open spec fn after_attempt(c: Counters) -> Counters {
    Counters { send_total: (c.send_total + 1) as u32, ..c }
}

/// The counters after an acknowledged send of `dur_ms`.
pub open spec fn after_ack(c: Counters, dur_ms: u32) -> Counters {
    Counters { send_ok: (c.send_ok + 1) as u32, consec_failures: 0, last_send_ms: dur_ms, ..c }
}

/// The counters after a send of `dur_ms` with no acknowledgement.
pub open spec fn after_fail(c: Counters, dur_ms: u32) -> Counters {
    Counters { consec_failures: (c.consec_failures + 1) as u32, last_send_ms: dur_ms, ..c }
}

/// One more send attempt.
pub fn note_attempt(c: &mut Counters)
    requires
        old(c).send_total < u32::MAX,
    ensures
        *final(c) == after_attempt(*old(c)),
{
    c.send_total = c.send_total + 1;
}

/// A send acknowledged after `dur_ms`: one more success, the failure streak
/// reset, the duration recorded.
pub fn note_ack(c: &mut Counters, dur_ms: u32)
    requires
        old(c).send_ok < u32::MAX,
    ensures
        *final(c) == after_ack(*old(c), dur_ms),
{
    c.send_ok = c.send_ok + 1;
    c.consec_failures = 0;
    c.last_send_ms = dur_ms;
}

/// A send that got no acknowledgement after `dur_ms`: the failure streak
/// grows, the duration is recorded.
pub fn note_fail(c: &mut Counters, dur_ms: u32)
    requires
        old(c).consec_failures < u32::MAX,
    ensures
        *final(c) == after_fail(*old(c), dur_ms),
{
    c.consec_failures = c.consec_failures + 1;
    c.last_send_ms = dur_ms;
}

/// Adds `ms` milliseconds of sleep to the total.
pub fn add_sleep(c: &mut Counters, ms: u32)
    requires
        old(c).sleep_ms_total + ms <= u32::MAX,
    ensures
        *final(c) == (Counters { sleep_ms_total: (old(c).sleep_ms_total + ms) as u32, ..*old(c) }),
{
    c.sleep_ms_total = c.sleep_ms_total + ms;
}

/// The current collection interval (s).
pub fn current_interval(c: &Counters) -> (s: u32)
    ensures
        s == c.current_interval_s,
{
    c.current_interval_s
}

/// Sets the collection interval (s).
pub fn set_interval(c: &mut Counters, n: u32)
    ensures
        *final(c) == (Counters { current_interval_s: n, ..*old(c) }),
{
    c.current_interval_s = n;
}

/// Share of acknowledged sends, in percent (100 before the first attempt).
pub open spec fn success_rate_spec(c: Counters) -> int {
    if c.send_total == 0 {
        100
    } else {
        (c.send_ok * 100) / (c.send_total as int)
    }
}

fn success_rate(c: &Counters) -> (r: u32)
    requires
        c.send_total != 0 ==> c.send_ok * 100 <= u32::MAX,
    ensures
        r == success_rate_spec(*c),
{
    let total = c.send_total;
    let ok = c.send_ok;
    if total == 0 {
        100
    } else {
        (ok * 100) / total
    }
}

fn consec_failures(c: &Counters) -> (r: u32)
    ensures
        r == c.consec_failures,
{
    c.consec_failures
}

fn last_send_ms(c: &Counters) -> (r: u32)
    ensures
        r == c.last_send_ms,
{
    c.last_send_ms
}

fn sleep_total(c: &Counters) -> (r: u32)
    ensures
        r == c.sleep_ms_total,
{
    c.sleep_ms_total
}

// ---------------------------------------------------------------------------
// The metric set.
// ---------------------------------------------------------------------------

#[derive(Clone, Copy, Debug)]
pub struct Metrics {
    /// raw
    pub uptime_ms: u32,
    /// raw
    pub cpu_usage_pct: u32,
    /// raw
    pub free_heap_bytes: u32,
    /// raw
    pub stack_usage_pct: u32,
    /// raw
    pub active_threads: u32,
    /// raw (0 when not measured)
    pub battery_mv: u32,
    /// computed here
    pub energy_proxy: u32,
    /// runtime
    pub last_send_duration_ms: u32,
    /// computed here
    pub tx_success_rate: u32,
    /// runtime
    pub consecutive_failures: u32,
    /// raw
    pub signal_dbm: i32,
    /// raw
    pub bytes_tx: u32,
    /// raw
    pub bytes_rx: u32,
    /// raw
    pub transport_errors: u32,
    /// raw (source: link retransmissions)
    pub coap_retransmissions: u32,
    /// computed here
    pub sleep_ratio_pct: u32,
    /// raw
    pub reset_count: u32,
}

/// The raw readings the host provides for one cycle.
#[derive(Clone, Copy, Debug)]
pub struct HostSample {
    pub uptime_ms: u32,
    pub cpu_usage: u32,
    pub free_heap: u32,
    pub stack_usage_pct: u32,
    pub active_threads: u32,
    pub battery_mv: u32,
    pub signal_dbm: i32,
    pub bytes_tx: u32,
    pub bytes_rx: u32,
    pub transport_errors: u32,
    pub tcp_retransmissions: u32,
    pub reset_count: u32,
}

/// Portable proxy of cumulated radio energy: bytes on the air, saturated.
pub open spec fn energy_proxy_spec(tx: u32, rx: u32) -> u32 {
    if tx + rx > u32::MAX {
        u32::MAX
    } else {
        (tx + rx) as u32
    }
}

/// Share of the uptime spent asleep, in percent, at most 100; 0 before any
/// uptime.
pub open spec fn sleep_ratio_spec(slept_ms: u32, uptime_ms: u32) -> int {
    if uptime_ms == 0 {
        0
    } else if (slept_ms * 100) / (uptime_ms as int) > 100 {
        100
    } else {
        (slept_ms * 100) / (uptime_ms as int)
    }
}

/// The metric set of one cycle: the host's raw readings, the runtime
/// counters, and the quantities derived from them.
pub open spec fn collect_spec(raw: HostSample, c: Counters) -> Metrics {
    Metrics {
        uptime_ms: raw.uptime_ms,
        cpu_usage_pct: raw.cpu_usage,
        free_heap_bytes: raw.free_heap,
        stack_usage_pct: raw.stack_usage_pct,
        active_threads: raw.active_threads,
        battery_mv: raw.battery_mv,
        energy_proxy: energy_proxy_spec(raw.bytes_tx, raw.bytes_rx),
        last_send_duration_ms: c.last_send_ms,
        tx_success_rate: success_rate_spec(c) as u32,
        consecutive_failures: c.consec_failures,
        signal_dbm: raw.signal_dbm,
        bytes_tx: raw.bytes_tx,
        bytes_rx: raw.bytes_rx,
        transport_errors: raw.transport_errors,
        coap_retransmissions: raw.tcp_retransmissions,
        sleep_ratio_pct: sleep_ratio_spec(c.sleep_ms_total, raw.uptime_ms) as u32,
        reset_count: raw.reset_count,
    }
}

/// Builds the metric set from the host's raw readings and the counters.
pub fn collect(raw: &HostSample, c: &Counters) -> (m: Metrics)
    requires
        c.send_total != 0 ==> c.send_ok * 100 <= u32::MAX,
    ensures
        m == collect_spec(*raw, *c),
        m.uptime_ms == raw.uptime_ms,
        m.cpu_usage_pct == raw.cpu_usage,
        m.free_heap_bytes == raw.free_heap,
        m.stack_usage_pct == raw.stack_usage_pct,
        m.active_threads == raw.active_threads,
        m.battery_mv == raw.battery_mv,
        m.signal_dbm == raw.signal_dbm,
        m.bytes_tx == raw.bytes_tx,
        m.bytes_rx == raw.bytes_rx,
        m.transport_errors == raw.transport_errors,
        m.coap_retransmissions == raw.tcp_retransmissions,
        m.reset_count == raw.reset_count,
        m.last_send_duration_ms == c.last_send_ms,
        m.consecutive_failures == c.consec_failures,
{
    let uptime = raw.uptime_ms;
    let bytes_tx = raw.bytes_tx;
    let bytes_rx = raw.bytes_rx;

    // energy_proxy: portable proxy of the radio energy (bytes on the air).
    let energy_proxy = bytes_tx.saturating_add(bytes_rx);

    // sleep_ratio_pct: share of the time spent asleep.
    let slept = sleep_total(c);
    let sleep_pct: u32 = if uptime == 0 {
        0
    } else {
        let r: u64 = (slept as u64 * 100) / uptime as u64;
        if r > 100 {
            100
        } else {
            r as u32
        }
    };

    Metrics {
        uptime_ms: uptime,
        cpu_usage_pct: raw.cpu_usage,
        free_heap_bytes: raw.free_heap,
        stack_usage_pct: raw.stack_usage_pct,
        active_threads: raw.active_threads,
        battery_mv: raw.battery_mv,
        energy_proxy,
        last_send_duration_ms: last_send_ms(c),
        tx_success_rate: success_rate(c),
        consecutive_failures: consec_failures(c),
        signal_dbm: raw.signal_dbm,
        bytes_tx,
        bytes_rx,
        transport_errors: raw.transport_errors,
        coap_retransmissions: raw.tcp_retransmissions,
        sleep_ratio_pct: sleep_pct,
        reset_count: raw.reset_count,
    }
}

/// The `status` text of a metric set. Priority: cpu > heap > link_down >
/// net_degraded > stack.
pub open spec fn status_text(m: Metrics) -> Seq<u8> {
    if m.cpu_usage_pct > 80 {
        "cpu_saturated".spec_bytes()
    } else if m.free_heap_bytes < 4096 {
        "heap_low".spec_bytes()
    } else if m.consecutive_failures >= 3 {
        "link_down".spec_bytes()
    } else if m.tx_success_rate < 70 {
        "net_degraded".spec_bytes()
    } else if m.stack_usage_pct > 85 {
        "stack_overflow_risk".spec_bytes()
    } else {
        "ok".spec_bytes()
    }
}

/// `status` field, derived here (aligned on the server's derivation).
pub fn derive_status(m: &Metrics) -> (s: &'static [u8])
    ensures
        s@ == status_text(*m),
{
    if m.cpu_usage_pct > 80 {
        return "cpu_saturated".as_bytes();
    }
    if m.free_heap_bytes < 4096 {
        return "heap_low".as_bytes();
    }
    if m.consecutive_failures >= 3 {
        return "link_down".as_bytes();
    }
    if m.tx_success_rate < 70 {
        return "net_degraded".as_bytes();
    }
    if m.stack_usage_pct > 85 {
        return "stack_overflow_risk".as_bytes();
    }
    "ok".as_bytes()
}

/// The success rate is a percentage while no more sends are acknowledged
/// than attempted.
pub proof fn lemma_success_rate_percent(c: Counters)
    requires
        c.send_ok <= c.send_total,
    ensures
        0 <= success_rate_spec(c) <= 100,
{
    if c.send_total > 0 {
        assert((c.send_ok * 100) / (c.send_total as int) <= 100) by (nonlinear_arith)
            requires
                c.send_ok <= c.send_total,
                c.send_total > 0,
        ;
        assert((c.send_ok * 100) / (c.send_total as int) >= 0) by (nonlinear_arith)
            requires
                c.send_total > 0,
        ;
    }
}

/// The sleep ratio is a percentage.
pub proof fn lemma_sleep_ratio_percent(slept_ms: u32, uptime_ms: u32)
    ensures
        0 <= sleep_ratio_spec(slept_ms, uptime_ms) <= 100,
{
    if uptime_ms > 0 {
        assert((slept_ms * 100) / (uptime_ms as int) >= 0) by (nonlinear_arith)
            requires
                uptime_ms > 0,
        ;
    }
}

/// An attempt followed by its outcome, acknowledged or not, keeps the
/// acknowledged sends within the attempts.
pub proof fn lemma_exchange_keeps_ok_within_total(c: Counters, dur_ms: u32)
    requires
        c.send_ok <= c.send_total < u32::MAX,
    ensures
        after_ack(after_attempt(c), dur_ms).send_ok <= after_ack(after_attempt(c), dur_ms).send_total,
        after_fail(after_attempt(c), dur_ms).send_ok <= after_fail(
            after_attempt(c),
            dur_ms,
        ).send_total,
{
}

/// Collection copies each raw reading into the field of the same meaning,
/// takes the runtime values from the counters, and derives: the bytes on
/// the air (tx + rx, saturated), the success rate (acknowledged sends in
/// percent of attempts, rounded down; 100 before any attempt), and the
/// sleep ratio (sleep in percent of the uptime, rounded down, at most 100;
/// 0 before any uptime).
pub proof fn lemma_collect_fields(raw: HostSample, c: Counters)
    ensures
        ({
            let m = collect_spec(raw, c);
            &&& m.uptime_ms == raw.uptime_ms
            &&& m.cpu_usage_pct == raw.cpu_usage
            &&& m.free_heap_bytes == raw.free_heap
            &&& m.stack_usage_pct == raw.stack_usage_pct
            &&& m.active_threads == raw.active_threads
            &&& m.battery_mv == raw.battery_mv
            &&& m.signal_dbm == raw.signal_dbm
            &&& m.bytes_tx == raw.bytes_tx
            &&& m.bytes_rx == raw.bytes_rx
            &&& m.transport_errors == raw.transport_errors
            &&& m.coap_retransmissions == raw.tcp_retransmissions
            &&& m.reset_count == raw.reset_count
            &&& m.last_send_duration_ms == c.last_send_ms
            &&& m.consecutive_failures == c.consec_failures
            &&& (raw.bytes_tx + raw.bytes_rx <= u32::MAX ==> m.energy_proxy == raw.bytes_tx
                + raw.bytes_rx)
            &&& (raw.bytes_tx + raw.bytes_rx > u32::MAX ==> m.energy_proxy == u32::MAX)
            &&& (c.send_total == 0 ==> m.tx_success_rate == 100)
            &&& (c.send_total > 0 && c.send_ok <= c.send_total) ==> (m.tx_success_rate * c.send_total
                <= c.send_ok * 100 < (m.tx_success_rate + 1) * c.send_total)
            &&& (raw.uptime_ms == 0 ==> m.sleep_ratio_pct == 0)
            &&& m.sleep_ratio_pct <= 100
            &&& (raw.uptime_ms > 0 && m.sleep_ratio_pct < 100) ==> (m.sleep_ratio_pct
                * raw.uptime_ms <= c.sleep_ms_total * 100 < (m.sleep_ratio_pct + 1)
                * raw.uptime_ms)
            &&& (raw.uptime_ms > 0 && c.sleep_ms_total >= raw.uptime_ms) ==> m.sleep_ratio_pct
                == 100
        }),
{
    let m = collect_spec(raw, c);
    lemma_sleep_ratio_percent(c.sleep_ms_total, raw.uptime_ms);
    if c.send_total > 0 && c.send_ok <= c.send_total {
        lemma_success_rate_percent(c);
        let q = (c.send_ok * 100) / (c.send_total as int);
        vstd::arithmetic::div_mod::lemma_fundamental_div_mod(c.send_ok * 100, c.send_total as int);
        vstd::arithmetic::div_mod::lemma_mod_bound(c.send_ok * 100, c.send_total as int);
        assert(q * c.send_total <= c.send_ok * 100 < (q + 1) * c.send_total) by (nonlinear_arith)
            requires
                c.send_ok * 100 == c.send_total * q + (c.send_ok * 100) % (c.send_total as int),
                0 <= (c.send_ok * 100) % (c.send_total as int) < c.send_total,
        ;
    }
    if raw.uptime_ms > 0 {
        let u = raw.uptime_ms as int;
        let q = (c.sleep_ms_total * 100) / u;
        vstd::arithmetic::div_mod::lemma_fundamental_div_mod(c.sleep_ms_total * 100, u);
        vstd::arithmetic::div_mod::lemma_mod_bound(c.sleep_ms_total * 100, u);
        assert(q * u <= c.sleep_ms_total * 100 < (q + 1) * u) by (nonlinear_arith)
            requires
                c.sleep_ms_total * 100 == u * q + (c.sleep_ms_total * 100) % u,
                0 <= (c.sleep_ms_total * 100) % u < u,
        ;
        if c.sleep_ms_total >= raw.uptime_ms {
            assert(q >= 100) by (nonlinear_arith)
                requires
                    q * u <= c.sleep_ms_total * 100 < (q + 1) * u,
                    c.sleep_ms_total >= u,
                    u > 0,
            ;
        }
    }
}

/// An attempt counts one more send; an acknowledgement one more success and
/// ends the failure streak; a failure lengthens the streak; neither touches
/// the other counters.
pub proof fn lemma_counter_updates(c: Counters, dur_ms: u32)
    requires
        c.send_total < u32::MAX,
        c.send_ok < u32::MAX,
        c.consec_failures < u32::MAX,
    ensures
        after_attempt(c).send_total == c.send_total + 1,
        after_attempt(c).send_ok == c.send_ok,
        after_attempt(c).consec_failures == c.consec_failures,
        after_ack(c, dur_ms).send_ok == c.send_ok + 1,
        after_ack(c, dur_ms).send_total == c.send_total,
        after_ack(c, dur_ms).consec_failures == 0,
        after_ack(c, dur_ms).last_send_ms == dur_ms,
        after_fail(c, dur_ms).consec_failures == c.consec_failures + 1,
        after_fail(c, dur_ms).send_ok == c.send_ok,
        after_fail(c, dur_ms).send_total == c.send_total,
        after_fail(c, dur_ms).last_send_ms == dur_ms,
        after_ack(c, dur_ms).current_interval_s == c.current_interval_s,
        after_fail(c, dur_ms).current_interval_s == c.current_interval_s,
        after_attempt(c).current_interval_s == c.current_interval_s,
{
}

/// The status follows a fixed priority: CPU saturation first, then low
/// heap, then a link down (a failure streak of HEALTH_MAX_CONSEC_FAIL or
/// more), then a degraded network (success rate below 70 %), then a stack
/// near overflow; "ok" only when none holds. A longer failure streak never
/// turns "link_down" back into a healthier status.
pub proof fn lemma_status_priority(m: Metrics)
    ensures
        m.cpu_usage_pct > 80 ==> status_text(m) == "cpu_saturated".spec_bytes(),
        m.cpu_usage_pct <= 80 && m.free_heap_bytes < 4096 ==> status_text(m)
            == "heap_low".spec_bytes(),
        m.cpu_usage_pct <= 80 && m.free_heap_bytes >= 4096 && m.consecutive_failures >= 3
            ==> status_text(m) == "link_down".spec_bytes(),
        m.cpu_usage_pct <= 80 && m.free_heap_bytes >= 4096 && m.consecutive_failures < 3
            && m.tx_success_rate < 70 ==> status_text(m) == "net_degraded".spec_bytes(),
        m.cpu_usage_pct <= 80 && m.free_heap_bytes >= 4096 && m.consecutive_failures < 3
            && m.tx_success_rate >= 70 && m.stack_usage_pct > 85 ==> status_text(m)
            == "stack_overflow_risk".spec_bytes(),
        m.cpu_usage_pct <= 80 && m.free_heap_bytes >= 4096 && m.consecutive_failures < 3
            && m.tx_success_rate >= 70 && m.stack_usage_pct <= 85 ==> status_text(m)
            == "ok".spec_bytes(),
{
}

/// More consecutive failures never improve the status from "link_down".
pub proof fn lemma_status_monotone_in_failures(m: Metrics, more: u32)
    requires
        more >= m.consecutive_failures,
        status_text(m) == "link_down".spec_bytes(),
        m.cpu_usage_pct <= 80,
        m.free_heap_bytes >= 4096,
    ensures
        status_text(Metrics { consecutive_failures: more, ..m }) == "link_down".spec_bytes(),
{
    lemma_status_texts_distinct();
}

proof fn lemma_status_texts_distinct()
    ensures
        "link_down".spec_bytes() != "net_degraded".spec_bytes(),
        "link_down".spec_bytes() != "stack_overflow_risk".spec_bytes(),
        "link_down".spec_bytes() != "ok".spec_bytes(),
{
    reveal_strlit("link_down");
    reveal_strlit("net_degraded");
    reveal_strlit("stack_overflow_risk");
    reveal_strlit("ok");
    vstd::string::is_ascii_spec_bytes("link_down");
    vstd::string::is_ascii_spec_bytes("net_degraded");
    vstd::string::is_ascii_spec_bytes("stack_overflow_risk");
    vstd::string::is_ascii_spec_bytes("ok");
    assert("link_down".spec_bytes().len() != "net_degraded".spec_bytes().len());
    assert("link_down".spec_bytes().len() != "stack_overflow_risk".spec_bytes().len());
    assert("link_down".spec_bytes().len() != "ok".spec_bytes().len());
}

} // verus!
