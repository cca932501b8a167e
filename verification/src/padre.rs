//! PADRE decision engine: adaptive prediction and decision under energy
//! regulation.
//!
//! Each cycle:
//!   E1 online estimation (EWMA + MAD, as integer shifts);
//!   E2 adaptive deadband   delta = clamp(dmin, dmax, kappa * d);
//!   E3 energy floor k_min(E_t) (amortised recomputation);
//!   E4 lexicographic decision: critical > heartbeat > (delta AND budget).
//!
//! Total state: a dozen integers. No allocation, no float, no division on
//! the hot path (the only division, k_min, is amortised over M cycles).
use vstd::prelude::*;
use crate::config::{
    BATTERY_CAPACITY_MC, BATTERY_CUTOFF_MV, BATTERY_EMPTY_MV, BATTERY_FULL_MV, CRIT_RATE_LIMIT_CYCLES, DELTA_MAX, DELTA_MIN, ENERGY_RECALC_PERIOD, EWMA_SHIFT, E_C_MC, E_S_MC, HEALTH_HEAP_MIN_BYTES, HEALTH_MAX_CONSEC_FAIL, HEALTH_STACK_MAX_PCT, HEARTBEAT_MAX, KAPPA, K_MAX, LOAD_DEFER_MAX, LOAD_DEFER_STEP, LOAD_HIGH_CPU_PCT, L_REM_SECS, MAD_SHIFT, T_C_SECS, T_MAX_S, T_MIN_S,
};
use crate::metrics::Metrics;

verus! {

/// Persistent state of the controller.
#[derive(Clone, Copy, Debug)]
pub struct Padre {
    pub inited: bool,
    /// EWMA of the CPU reading
    pub s: i32,
    /// mean absolute deviation of the CPU reading
    pub d: i32,
    /// last transmitted value (reference)
    pub r: i32,
    /// cycles since the last emission
    pub age: u32,
    /// current energy spacing floor
    pub kmin: u32,
    /// countdown to the next recomputation of kmin
    pub mctr: u32,
    /// time of the last critical alert
    pub crit_ts: u32,
    pub has_crit: bool,
    /// transport_errors at the last emission
    pub last_err: u32,
    /// consecutive cycles under heavy load
    pub streak: u32,
}

impl Padre {
    /// The controller at start-up.
    pub fn new() -> (p: Padre)
        ensures
            p == padre_init(),
            p.wf(),
    {
        Padre {
            inited: false,
            s: 0,
            d: 0,
            r: 0,
            age: 0,
            kmin: 1,
            mctr: 0,
            crit_ts: 0,
            has_crit: false,
            last_err: 0,
            streak: 0,
        }
    }

    /// The invariant every reachable state keeps.
    pub open spec fn wf(&self) -> bool {
        &&& self.age < HEARTBEAT_MAX
        &&& 1 <= self.kmin <= K_MAX
        &&& self.mctr < ENERGY_RECALC_PERIOD
    }
}

pub open spec fn padre_init() -> Padre {
    Padre {
        inited: false,
        s: 0,
        d: 0,
        r: 0,
        age: 0,
        kmin: 1,
        mctr: 0,
        crit_ts: 0,
        has_crit: false,
        last_err: 0,
        streak: 0,
    }
}

pub open spec fn clamp_spec(lo: int, hi: int, v: int) -> int {
    if v < lo {
        lo
    } else if v > hi {
        hi
    } else {
        v
    }
}

pub open spec fn abs_spec(v: int) -> int {
    if v < 0 {
        -v
    } else {
        v
    }
}

/// E1: exponentially weighted moving average, alpha = 1/8 (floor).
pub open spec fn ewma_step(s: int, x: int) -> int {
    s + (x - s) / 8
}

/// E1: mean absolute deviation, beta = 1/8 (floor).
pub open spec fn mad_step(d: int, dev: int) -> int {
    d + (dev - d) / 8
}

/// E2: deadband of a mean deviation `d`.
pub open spec fn deadband(d: int) -> int {
    clamp_spec(DELTA_MIN as int, DELTA_MAX as int, KAPPA * d)
}

/// Number of cycles of the lifetime horizon.
pub open spec fn horizon_cycles() -> int {
    (L_REM_SECS as int) / (T_C_SECS as int)
}

/// The charge (mC) interpolated from a battery voltage above the empty
/// voltage.
pub open spec fn energy_mc(mv: u32) -> int {
    let soc_den = (BATTERY_FULL_MV - BATTERY_EMPTY_MV) as int;
    let soc_num = if mv - BATTERY_EMPTY_MV > soc_den {
        soc_den
    } else {
        mv - BATTERY_EMPTY_MV
    };
    BATTERY_CAPACITY_MC * soc_num / soc_den
}

/// E3: spacing floor from the energy budget. 1 when the battery is not
/// measured (0 mV); K_MAX (survival) at or below the empty voltage or when
/// even the idle cycles do not last the horizon; else
/// ceil(n * E_S / (E_t - n * E_C)) clamped to [1, K_MAX], with E_t the
/// charge linearly interpolated between the empty and full voltages.
pub open spec fn k_min_spec(mv: u32) -> u32 {
    if mv == 0 {
        1
    } else if mv <= BATTERY_EMPTY_MV {
        K_MAX
    } else {
        let e_t = energy_mc(mv);
        let n = horizon_cycles();
        let n_ec = n * E_C_MC;
        if e_t <= n_ec {
            K_MAX
        } else {
            let denom = e_t - n_ec;
            clamp_spec(1, K_MAX as int, (n * E_S_MC + denom - 1) / denom) as u32
        }
    }
}

/// E4: a health or battery alarm.
pub open spec fn alarm_spec(m: Metrics, last_err: u32) -> bool {
    ||| m.free_heap_bytes < HEALTH_HEAP_MIN_BYTES
    ||| m.stack_usage_pct > HEALTH_STACK_MAX_PCT
    ||| m.consecutive_failures >= HEALTH_MAX_CONSEC_FAIL
    ||| m.transport_errors > last_err
    ||| (m.battery_mv != 0 && m.battery_mv < BATTERY_CUTOFF_MV)
}

/// Cycles elapsed from `from` to `t`, modulo 2^32.
pub open spec fn elapsed(from: u32, t: u32) -> int {
    if t >= from {
        t - from
    } else {
        t - from + 0x1_0000_0000
    }
}

/// The first critical alert always passes; after it, at most one per
/// CRIT_RATE_LIMIT_CYCLES.
pub open spec fn rate_limit_spec(p: Padre, t: u32) -> bool {
    !p.has_crit || elapsed(p.crit_ts, t) >= CRIT_RATE_LIMIT_CYCLES
}

/// The estimator after observing `x`: (s, d).
pub open spec fn estimate(p: Padre, x: int) -> (int, int) {
    let s2 = ewma_step(p.s as int, x);
    (s2, mad_step(p.d as int, abs_spec(x - s2)))
}

/// The spacing floor and its countdown after this cycle.
pub open spec fn floor_step(p: Padre, m: Metrics) -> (u32, u32) {
    if p.mctr == 0 {
        (k_min_spec(m.battery_mv), (ENERGY_RECALC_PERIOD - 1) as u32)
    } else {
        (p.kmin, (p.mctr - 1) as u32)
    }
}

/// A critical alert this cycle (alarm, and the rate limit allows it).
pub open spec fn critical_alert(p: Padre, m: Metrics, t: u32) -> bool {
    alarm_spec(m, p.last_err) && rate_limit_spec(p, t)
}

/// Freshness: the age reaches HEARTBEAT_MAX this cycle.
pub open spec fn heartbeat_due(p: Padre) -> bool {
    p.age + 1 >= HEARTBEAT_MAX
}

/// Informative change within budget: the reading left the deadband around
/// the reference, and the spacing floor is reached.
pub open spec fn informative(p: Padre, m: Metrics) -> bool {
    let x = reading(m);
    abs_spec(x - p.r) >= deadband(estimate(p, x).1) && p.age + 1 >= floor_step(p, m).0
}

/// The reading as the engine sees it: the CPU value taken as an `i32`.
pub open spec fn reading(m: Metrics) -> int {
    (m.cpu_usage_pct as i32) as int
}

pub open spec fn fits_i32(v: int) -> bool {
    i32::MIN <= v <= i32::MAX
}

/// Every intermediate value of a decision fits in an `i32`.
pub open spec fn decision_in_range(p: Padre, m: Metrics) -> bool {
    let x = reading(m);
    let s2 = ewma_step(p.s as int, x);
    let dev = abs_spec(x - s2);
    p.inited ==> {
        &&& fits_i32(x - p.s)
        &&& fits_i32(x - s2)
        &&& fits_i32(dev)
        &&& fits_i32(dev - p.d)
        &&& fits_i32(KAPPA * mad_step(p.d as int, dev))
        &&& fits_i32(x - p.r)
        &&& fits_i32(abs_spec(x - p.r))
    }
}

/// One decision: the next state and whether to emit. The first call always
/// emits and takes the reading as reference.
pub open spec fn decide_spec(p: Padre, m: Metrics, t: u32) -> (Padre, bool) {
    let x = reading(m);
    if !p.inited {
        (
            Padre {
                inited: true,
                s: x as i32,
                d: 0,
                r: x as i32,
                age: 0,
                last_err: m.transport_errors,
                ..p
            },
            true,
        )
    } else {
        let (s2, d2) = estimate(p, x);
        let (kmin, mctr) = floor_step(p, m);
        let crit = critical_alert(p, m, t);
        let emit = crit || heartbeat_due(p) || informative(p, m);
        let q = Padre { s: s2 as i32, d: d2 as i32, kmin, mctr, ..p };
        if emit {
            (
                Padre {
                    r: x as i32,
                    age: 0,
                    last_err: m.transport_errors,
                    crit_ts: if crit {
                        t
                    } else {
                        p.crit_ts
                    },
                    has_crit: crit || p.has_crit,
                    ..q
                },
                true,
            )
        } else {
            (Padre { age: (p.age + 1) as u32, ..q }, false)
        }
    }
}

fn clamp_i32(lo: i32, hi: i32, v: i32) -> (r: i32)
    ensures
        r == clamp_spec(lo as int, hi as int, v as int),
{
    if v < lo {
        lo
    } else if v > hi {
        hi
    } else {
        v
    }
}

proof fn lemma_shr3(v: i32)
    ensures
        (v >> 3u32) as int == (v as int) / 8,
{
    assert((v >> 3u32) * 8 <= v && v < (v >> 3u32) * 8 + 8) by (bit_vector);
}

/// E3: spacing floor derived from the energy budget. Returns k_min in
/// cycles; K_MAX is survival mode. With no battery reading (battery_mv ==
/// 0, e.g. a USB-powered board) the gating is off.
fn k_min_from_budget(m: &Metrics) -> (k: u32)
    ensures
        k == k_min_spec(m.battery_mv),
{
    let mv = m.battery_mv;
    if mv == 0 {
        return 1;
    }
    if mv <= BATTERY_EMPTY_MV {
        return K_MAX;
    }
    // Linear state of charge -> remaining energy E_t (mC).
    let soc_num = (mv - BATTERY_EMPTY_MV) as u64;
    let soc_den = (BATTERY_FULL_MV - BATTERY_EMPTY_MV) as u64;
    let soc_num = if soc_num > soc_den {
        soc_den
    } else {
        soc_num
    };
    assert(BATTERY_CAPACITY_MC * soc_num <= 3_600_000 * 900) by (nonlinear_arith)
        requires
            soc_num <= 900,
    ;
    let e_t = BATTERY_CAPACITY_MC * soc_num / soc_den;

    let n = L_REM_SECS / T_C_SECS as u64;
    let n_ec = n * E_C_MC;
    if e_t <= n_ec {
        return K_MAX;  // even sleeping does not hold the horizon -> survival
    }
    let denom = e_t - n_ec;
    // k = ceil(n * e_s / denom)
    assert(((n * E_S_MC + denom - 1) as int) / (denom as int) <= (n * E_S_MC + denom - 1) as int)
        by (nonlinear_arith)
        requires
            denom >= 1,
            n * E_S_MC + denom - 1 >= 0,
    ;
    let k = (n * E_S_MC + denom - 1) / denom;
    let k = k as u32;
    if k < 1 {
        1
    } else if k > K_MAX {
        K_MAX
    } else {
        k
    }
}

/// E4: critical alarm (health or battery).
fn health_or_battery_critical(m: &Metrics, last_err: u32) -> (b: bool)
    ensures
        b == alarm_spec(*m, last_err),
{
    if m.free_heap_bytes < HEALTH_HEAP_MIN_BYTES {
        return true;
    }
    if m.stack_usage_pct > HEALTH_STACK_MAX_PCT {
        return true;
    }
    if m.consecutive_failures >= HEALTH_MAX_CONSEC_FAIL {
        return true;
    }
    if m.transport_errors > last_err {
        return true;
    }
    if m.battery_mv != 0 && m.battery_mv < BATTERY_CUTOFF_MV {
        return true;
    }
    false
}

/// Rate limit of critical alerts: the first always passes, then at most one
/// per CRIT_RATE_LIMIT_CYCLES.
fn rate_limit_ok(p: &Padre, t: u32) -> (b: bool)
    ensures
        b == rate_limit_spec(*p, t),
{
    if !p.has_crit {
        return true;
    }
    let last = p.crit_ts;
    t.wrapping_sub(last) >= CRIT_RATE_LIMIT_CYCLES
}

/// The estimator keeps its values within the range of the readings.
pub proof fn lemma_ewma_between(s: int, x: int)
    ensures
        s <= x ==> s <= ewma_step(s, x) <= x,
        x <= s ==> x <= ewma_step(s, x) <= s,
{
}

/// k_min lies in [1, K_MAX]; 1 without a battery reading, K_MAX (survival)
/// at or below the empty voltage.
pub proof fn lemma_k_min_range(mv: u32)
    ensures
        1 <= k_min_spec(mv) <= K_MAX,
        mv == 0 ==> k_min_spec(mv) == 1,
        0 < mv <= BATTERY_EMPTY_MV ==> k_min_spec(mv) == K_MAX,
{
}

/// Every decision keeps the invariant.
pub proof fn lemma_decide_wf(p: Padre, m: Metrics, t: u32)
    requires
        p.wf(),
    ensures
        decide_spec(p, m, t).0.wf(),
{
    lemma_k_min_range(m.battery_mv);
}

/// Emission decision for the current cycle (`t` = sequence number).
pub fn decide(p: &mut Padre, m: &Metrics, t: u32) -> (emit: bool)
    requires
        old(p).wf(),
        decision_in_range(*old(p), *m),
    ensures
        (*final(p), emit) == decide_spec(*old(p), *m, t),
        final(p).wf(),
{
    proof {
        lemma_decide_wf(*p, *m, t);
        lemma_ewma_between(p.s as int, reading(*m));
        let s2 = ewma_step(p.s as int, reading(*m));
        lemma_ewma_between(p.d as int, abs_spec(reading(*m) - s2));
    }
    let x = m.cpu_usage_pct as i32;

    // Initialisation: first emission, sets the reference.
    if !p.inited {
        p.s = x;
        p.d = 0;
        p.r = x;
        p.age = 0;
        p.last_err = m.transport_errors;
        p.inited = true;
        return true;
    }

    // E1: online estimation (integer shifts).
    let s = p.s;
    proof {
        lemma_shr3((x - s) as i32);
    }
    let s2 = s + ((x - s) >> EWMA_SHIFT);
    p.s = s2;
    let d = p.d;
    let diff = x - s2;
    let dev = if diff < 0 {
        -diff
    } else {
        diff
    };
    proof {
        lemma_shr3((dev - d) as i32);
    }
    let d2 = d + ((dev - d) >> MAD_SHIFT);
    p.d = d2;

    // E2: adaptive deadband.
    let d = p.d;
    let delta = clamp_i32(DELTA_MIN, DELTA_MAX, KAPPA * d);

    // E3: energy floor (amortised recomputation every M cycles).
    let mctr = p.mctr;
    if mctr == 0 {
        p.kmin = k_min_from_budget(m);
        p.mctr = ENERGY_RECALC_PERIOD;
    }
    let mctr = p.mctr;
    p.mctr = mctr - 1;

    // E4: lexicographic decision.
    let r = p.r;
    let age = p.age + 1;  // cycles since the last emission
    let kmin = p.kmin;

    let critique = health_or_battery_critical(m, p.last_err) && rate_limit_ok(p, t);
    let heartbeat = age >= HEARTBEAT_MAX;
    let gap = x - r;
    let gap_abs = if gap < 0 {
        -gap
    } else {
        gap
    };
    let info_budget = (gap_abs >= delta) && (age >= kmin);

    let emit = critique || heartbeat || info_budget;

    // E5: update.
    if emit {
        p.r = x;
        p.age = 0;
        p.last_err = m.transport_errors;
        if critique {
            p.crit_ts = t;
            p.has_crit = true;
        }
    } else {
        p.age = age;
    }
    emit
}

/// Whether a decision on `m` keeps every intermediate value within an
/// `i32`: the condition under which `decide` may be called.
pub fn decision_fits(p: &Padre, m: &Metrics) -> (b: bool)
    ensures
        b == decision_in_range(*p, *m),
{
    if !p.inited {
        return true;
    }
    let x = m.cpu_usage_pct as i32;
    let lo = i32::MIN as i64;
    let hi = i32::MAX as i64;
    let diff = x as i64 - p.s as i64;
    if diff < lo || diff > hi {
        return false;
    }
    proof {
        lemma_shr3(diff as i32);
        lemma_ewma_between(p.s as int, x as int);
    }
    let s2 = p.s as i64 + ((diff as i32) >> 3u32) as i64;
    let e = x as i64 - s2;
    if e < lo || e > hi {
        return false;
    }
    let dev = if e < 0 {
        -e
    } else {
        e
    };
    if dev > hi {
        return false;
    }
    let dd = dev - p.d as i64;
    if dd < lo || dd > hi {
        return false;
    }
    proof {
        lemma_shr3(dd as i32);
        lemma_ewma_between(p.d as int, dev as int);
    }
    let d2 = p.d as i64 + ((dd as i32) >> 3u32) as i64;
    if 3 * d2 < lo || 3 * d2 > hi {
        return false;
    }
    let g = x as i64 - p.r as i64;
    if g < lo || g > hi {
        return false;
    }
    let ga = if g < 0 {
        -g
    } else {
        g
    };
    ga <= hi
}

/// Deferral under heavy load, given the streak of heavy-load cycles:
/// (new streak, seconds to add to the base interval).
pub open spec fn defer_spec(streak: u32, cpu: u32) -> (u32, u32) {
    if cpu >= LOAD_HIGH_CPU_PCT {
        let s = streak + 1;
        (s as u32, if LOAD_DEFER_STEP * s > LOAD_DEFER_MAX {
            LOAD_DEFER_MAX
        } else {
            (LOAD_DEFER_STEP * s) as u32
        })
    } else {
        (0, 0)
    }
}

/// Deferral under heavy load: delay (s) to ADD to the base interval.
pub fn compute_defer(p: &mut Padre, cpu: u32) -> (defer: u32)
    requires
        cpu >= LOAD_HIGH_CPU_PCT ==> old(p).streak < 0x7fff_ffff,
    ensures
        (final(p).streak, defer) == defer_spec(old(p).streak, cpu),
        *final(p) == (Padre { streak: final(p).streak, ..*old(p) }),
{
    if cpu >= LOAD_HIGH_CPU_PCT {
        let s = p.streak + 1;
        p.streak = s;
        let defer = LOAD_DEFER_STEP * s;
        if defer > LOAD_DEFER_MAX {
            LOAD_DEFER_MAX
        } else {
            defer
        }
    } else {
        p.streak = 0;
        0
    }
}

/// True when the controller is in survival mode (budget exhausted).
pub fn in_survival(p: &Padre) -> (b: bool)
    ensures
        b == (p.kmin == K_MAX),
{
    p.kmin == K_MAX
}

/// Length of the next sleep: the current (reconfigurable) interval, or
/// T_MAX_S in survival, plus the heavy-load deferral, within [T_MIN_S,
/// T_MAX_S].
pub open spec fn sleep_secs_spec(survival: bool, interval: u32, defer: u32) -> int {
    let base = if survival {
        T_MAX_S as int
    } else {
        interval as int
    };
    clamp_spec(T_MIN_S as int, T_MAX_S as int, base + defer)
}

pub fn sleep_secs(survival: bool, interval: u32, defer: u32) -> (secs: u32)
    requires
        survival ==> T_MAX_S + defer <= u32::MAX,
        !survival ==> interval + defer <= u32::MAX,
    ensures
        secs == sleep_secs_spec(survival, interval, defer),
        T_MIN_S <= secs <= T_MAX_S,
{
    let base = if survival {
        T_MAX_S
    } else {
        interval
    };
    let mut secs = base + defer;
    if secs < T_MIN_S {
        secs = T_MIN_S;
    }
    if secs > T_MAX_S {
        secs = T_MAX_S;
    }
    secs
}

// --- Laws of the decision engine ---

/// The first decision always emits and takes the reading as reference.
pub proof fn lemma_first_decision_emits(p: Padre, m: Metrics, t: u32)
    requires
        !p.inited,
    ensures
        decide_spec(p, m, t).1,
        decide_spec(p, m, t).0.inited,
        decide_spec(p, m, t).0.r == m.cpu_usage_pct as i32,
        decide_spec(p, m, t).0.age == 0,
{
}

/// Lexicographic decision: a critical alert always emits, a due heartbeat
/// always emits, and otherwise an emission needs both a reading outside the
/// deadband and the spacing floor reached.
pub proof fn lemma_decision_priority(p: Padre, m: Metrics, t: u32)
    requires
        p.inited,
    ensures
        critical_alert(p, m, t) ==> decide_spec(p, m, t).1,
        heartbeat_due(p) ==> decide_spec(p, m, t).1,
        !critical_alert(p, m, t) && !heartbeat_due(p) ==> (decide_spec(p, m, t).1 <==> informative(
            p,
            m,
        )),
{
}

/// An emission makes the reading the new reference and resets the age; a
/// silent cycle keeps the reference and ages it by one.
pub proof fn lemma_emission_resets_reference(p: Padre, m: Metrics, t: u32)
    ensures
        decide_spec(p, m, t).1 ==> decide_spec(p, m, t).0.r == m.cpu_usage_pct as i32
            && decide_spec(p, m, t).0.age == 0,
        !decide_spec(p, m, t).1 ==> decide_spec(p, m, t).0.r == p.r && decide_spec(p, m, t).0.age
            == p.age + 1,
        decide_spec(p, m, t).1 ==> decide_spec(p, m, t).0.last_err == m.transport_errors,
        !decide_spec(p, m, t).1 ==> decide_spec(p, m, t).0.last_err == p.last_err,
{
}

/// Critical alerts are rate limited: one after an earlier critical alert
/// comes only CRIT_RATE_LIMIT_CYCLES or more later, and each is recorded as
/// the latest.
pub proof fn lemma_critical_rate_limited(p: Padre, m: Metrics, t: u32)
    requires
        p.inited,
    ensures
        critical_alert(p, m, t) && p.has_crit ==> elapsed(p.crit_ts, t) >= CRIT_RATE_LIMIT_CYCLES,
        critical_alert(p, m, t) ==> decide_spec(p, m, t).0.has_crit && decide_spec(p, m, t).0.crit_ts
            == t,
        !p.has_crit && alarm_spec(m, p.last_err) ==> critical_alert(p, m, t),
{
}

/// The deadband lies in [DELTA_MIN, DELTA_MAX].
pub proof fn lemma_deadband_range(d: int)
    ensures
        DELTA_MIN <= deadband(d) <= DELTA_MAX,
{
}

proof fn lemma_ceil_div_antitone(a: int, d1: int, d2: int)
    requires
        0 <= a,
        1 <= d1 <= d2,
    ensures
        (a + d2 - 1) / d2 <= (a + d1 - 1) / d1,
{
    let q1 = (a + d1 - 1) / d1;
    let r1 = (a + d1 - 1) % d1;
    vstd::arithmetic::div_mod::lemma_fundamental_div_mod(a + d1 - 1, d1);
    assert(a + d1 - 1 == d1 * q1 + r1);
    assert(0 <= r1 < d1) by {
        vstd::arithmetic::div_mod::lemma_mod_bound(a + d1 - 1, d1);
    }
    assert(q1 >= 0) by {
        vstd::arithmetic::div_mod::lemma_div_pos_is_pos(a + d1 - 1, d1);
    }
    assert(q1 * d2 >= a) by (nonlinear_arith)
        requires
            a + d1 - 1 == d1 * q1 + r1,
            r1 < d1,
            q1 >= 0,
            d1 <= d2,
    ;
    let q2 = (a + d2 - 1) / d2;
    let r2 = (a + d2 - 1) % d2;
    vstd::arithmetic::div_mod::lemma_fundamental_div_mod(a + d2 - 1, d2);
    assert(0 <= r2 < d2) by {
        vstd::arithmetic::div_mod::lemma_mod_bound(a + d2 - 1, d2);
    }
    assert(q2 <= q1) by (nonlinear_arith)
        requires
            a + d2 - 1 == d2 * q2 + r2,
            0 <= r2,
            q1 * d2 >= a,
            d2 >= 1,
    ;
}

/// More battery never means a larger spacing floor (battery measured).
pub proof fn lemma_k_min_antitone(mv1: u32, mv2: u32)
    requires
        0 < mv1 <= mv2,
    ensures
        k_min_spec(mv2) <= k_min_spec(mv1),
{
    lemma_k_min_range(mv1);
    lemma_k_min_range(mv2);
    if mv1 > BATTERY_EMPTY_MV {
        let soc_den = (BATTERY_FULL_MV - BATTERY_EMPTY_MV) as int;
        let s1 = if mv1 - BATTERY_EMPTY_MV > soc_den {
            soc_den
        } else {
            mv1 - BATTERY_EMPTY_MV
        };
        let s2 = if mv2 - BATTERY_EMPTY_MV > soc_den {
            soc_den
        } else {
            mv2 - BATTERY_EMPTY_MV
        };
        assert(s1 <= s2);
        vstd::arithmetic::div_mod::lemma_div_is_ordered(
            BATTERY_CAPACITY_MC * s1,
            BATTERY_CAPACITY_MC * s2,
            soc_den,
        );
        let e1 = BATTERY_CAPACITY_MC * s1 / soc_den;
        let e2 = BATTERY_CAPACITY_MC * s2 / soc_den;
        let n_ec = horizon_cycles() * E_C_MC;
        if e1 > n_ec {
            lemma_ceil_div_antitone(horizon_cycles() * E_S_MC, e1 - n_ec, e2 - n_ec);
        }
    }
}

/// The state after the first `k` decisions on `inputs`.
pub open spec fn run(p: Padre, inputs: Seq<(Metrics, u32)>, k: nat) -> Padre
    decreases k,
{
    if k == 0 {
        p
    } else {
        decide_spec(run(p, inputs, (k - 1) as nat), inputs[k - 1].0, inputs[k - 1].1).0
    }
}

/// Whether decision number `j` on `inputs` emits.
pub open spec fn emits_at(p: Padre, inputs: Seq<(Metrics, u32)>, j: nat) -> bool {
    decide_spec(run(p, inputs, j), inputs[j as int].0, inputs[j as int].1).1
}

proof fn lemma_silent_run_ages(p: Padre, inputs: Seq<(Metrics, u32)>, k: nat)
    requires
        p.inited,
        k <= inputs.len(),
        forall|j: nat| j < k ==> !#[trigger] emits_at(p, inputs, j),
    ensures
        run(p, inputs, k).inited,
        run(p, inputs, k).age == p.age + k,
    decreases k,
{
    if k > 0 {
        lemma_silent_run_ages(p, inputs, (k - 1) as nat);
        assert(!emits_at(p, inputs, (k - 1) as nat));
    }
}

/// The spacing floor is recomputed only once every ENERGY_RECALC_PERIOD
/// decisions: while the countdown runs, each decision keeps the floor and
/// counts down by one.
pub proof fn lemma_floor_amortised(p: Padre, inputs: Seq<(Metrics, u32)>, k: nat)
    requires
        p.inited,
        k <= p.mctr,
        k <= inputs.len(),
    ensures
        run(p, inputs, k).inited,
        run(p, inputs, k).kmin == p.kmin,
        run(p, inputs, k).mctr == p.mctr - k,
    decreases k,
{
    if k > 0 {
        lemma_floor_amortised(p, inputs, (k - 1) as nat);
    }
}

/// Freshness: among any HEARTBEAT_MAX consecutive decisions, at least one
/// emits.
pub proof fn lemma_heartbeat_bound(p: Padre, inputs: Seq<(Metrics, u32)>)
    requires
        inputs.len() >= HEARTBEAT_MAX,
    ensures
        exists|j: nat| j < HEARTBEAT_MAX && #[trigger] emits_at(p, inputs, j),
{
    if !p.inited {
        assert(emits_at(p, inputs, 0));
    } else if forall|j: nat| j < (HEARTBEAT_MAX - 1) as nat ==> !#[trigger] emits_at(p, inputs, j) {
        let last = (HEARTBEAT_MAX - 1) as nat;
        lemma_silent_run_ages(p, inputs, last);
        assert(heartbeat_due(run(p, inputs, last)));
        assert(emits_at(p, inputs, last));
    } else {
        let j = choose|j: nat| j < (HEARTBEAT_MAX - 1) as nat && #[trigger] emits_at(p, inputs, j);
        assert(emits_at(p, inputs, j));
    }
}

/// The heavy-load deferral lies in [0, LOAD_DEFER_MAX], is 0 (and the
/// streak reset) below LOAD_HIGH_CPU_PCT, and never shrinks while the load
/// stays high.
pub proof fn lemma_defer_range(streak: u32, cpu: u32)
    requires
        streak < 0x7fff_ffff,
    ensures
        defer_spec(streak, cpu).1 <= LOAD_DEFER_MAX,
        cpu < LOAD_HIGH_CPU_PCT ==> defer_spec(streak, cpu) == (0u32, 0u32),
        cpu >= LOAD_HIGH_CPU_PCT ==> defer_spec(streak, cpu).1 >= LOAD_DEFER_STEP
            && defer_spec((streak + 1) as u32, cpu).1 >= defer_spec(streak, cpu).1,
{
}

/// Above 3354 mV the budget holds the horizon and k_min is the least
/// spacing k with k * (E_t - n * E_C) >= n * E_S; it is then at most 216.
pub proof fn lemma_k_min_ceiling(mv: u32)
    requires
        mv > 3354,
    ensures
        ({
            let denom = energy_mc(mv) - horizon_cycles() * E_C_MC;
            let k = k_min_spec(mv) as int;
            &&& denom >= 4000
            &&& 1 <= k <= 216
            &&& k * denom >= horizon_cycles() * E_S_MC
            &&& (k - 1) * denom < horizon_cycles() * E_S_MC
        }),
{
    let soc = if mv - BATTERY_EMPTY_MV > 900 {
        900int
    } else {
        mv - BATTERY_EMPTY_MV
    };
    assert(soc >= 55);
    vstd::arithmetic::div_mod::lemma_div_multiples_vanish(4000 * soc, 900);
    assert(BATTERY_CAPACITY_MC * soc == 900 * (4000 * soc));
    assert(energy_mc(mv) == 4000 * soc);
    assert(horizon_cycles() == 43200);
    let denom = energy_mc(mv) - 216000;
    assert(denom >= 4000);
    let a = 864000int;
    let q = (a + denom - 1) / denom;
    let r = (a + denom - 1) % denom;
    vstd::arithmetic::div_mod::lemma_fundamental_div_mod(a + denom - 1, denom);
    vstd::arithmetic::div_mod::lemma_mod_bound(a + denom - 1, denom);
    assert(q * denom >= a && (q - 1) * denom < a) by (nonlinear_arith)
        requires
            a + denom - 1 == denom * q + r,
            0 <= r < denom,
    ;
    assert(1 <= q <= 216) by (nonlinear_arith)
        requires
            q * denom >= a,
            (q - 1) * denom < a,
            denom >= 4000,
            a == 864000,
    ;
}

/// The readings, the estimates and the reference all within [0, hi].
pub open spec fn estimates_within(p: Padre, hi: int) -> bool {
    &&& 0 <= p.s <= hi
    &&& 0 <= p.d <= hi
    &&& 0 <= p.r <= hi
}

/// With CPU readings that are percentages, every decision stays within
/// `i32` arithmetic and keeps the estimates within [0, 100]; the engine
/// starts there.
pub proof fn lemma_percent_readings_in_range(p: Padre, m: Metrics, t: u32)
    requires
        estimates_within(p, 100),
        m.cpu_usage_pct <= 100,
    ensures
        decision_in_range(p, m),
        estimates_within(decide_spec(p, m, t).0, 100),
        estimates_within(padre_init(), 100),
{
    let x = reading(m);
    assert(x == m.cpu_usage_pct as int);
    lemma_ewma_between(p.s as int, x);
    let s2 = ewma_step(p.s as int, x);
    lemma_ewma_between(p.d as int, abs_spec(x - s2));
}

/// The decision emits and records a critical alert at `t`.
pub open spec fn records_alert(p: Padre, m: Metrics, t: u32) -> bool {
    let (q, emit) = decide_spec(p, m, t);
    emit && q.has_crit && q.crit_ts == t
}

/// The decision leaves the record of critical alerts as it was.
pub open spec fn keeps_alert_record(p: Padre, m: Metrics, t: u32) -> bool {
    let q = decide_spec(p, m, t).0;
    q.has_crit == p.has_crit && q.crit_ts == p.crit_ts
}

/// Each alarm cause alone raises a critical alert when none was raised
/// before: low heap, stack near overflow, a failure streak, new transport
/// errors since the last emission, a measured battery below the Li-ion
/// cut-off.
pub proof fn lemma_alarm_causes(p: Padre, m: Metrics, t: u32)
    requires
        p.inited,
        !p.has_crit,
    ensures
        m.free_heap_bytes < HEALTH_HEAP_MIN_BYTES ==> records_alert(p, m, t),
        m.stack_usage_pct > HEALTH_STACK_MAX_PCT ==> records_alert(p, m, t),
        m.consecutive_failures >= HEALTH_MAX_CONSEC_FAIL ==> records_alert(p, m, t),
        m.transport_errors > p.last_err ==> records_alert(p, m, t),
        0 < m.battery_mv < BATTERY_CUTOFF_MV ==> records_alert(p, m, t),
{
}

/// A healthy metric set (enough heap, stack below its limit, a short
/// failure streak, no new transport error, battery unmeasured or at or above
/// the cut-off) raises no critical alert.
pub proof fn lemma_healthy_raises_no_alarm(p: Padre, m: Metrics, t: u32)
    requires
        m.free_heap_bytes >= HEALTH_HEAP_MIN_BYTES,
        m.stack_usage_pct <= HEALTH_STACK_MAX_PCT,
        m.consecutive_failures < HEALTH_MAX_CONSEC_FAIL,
        m.transport_errors <= p.last_err,
        m.battery_mv == 0 || m.battery_mv >= BATTERY_CUTOFF_MV,
    ensures
        keeps_alert_record(p, m, t),
        !alarm_spec(m, p.last_err),
{
}

/// After a critical alert at `crit_ts`, an alarm raises no new one before
/// CRIT_RATE_LIMIT_CYCLES cycles (counted modulo 2^32), and does from then
/// on.
pub proof fn lemma_rate_limit_cycles(p: Padre, m: Metrics, t: u32)
    requires
        p.inited,
        p.has_crit,
    ensures
        t >= p.crit_ts && t - p.crit_ts < CRIT_RATE_LIMIT_CYCLES ==> keeps_alert_record(p, m, t),
        t < p.crit_ts && t + 0x1_0000_0000 - p.crit_ts < CRIT_RATE_LIMIT_CYCLES ==> keeps_alert_record(
            p,
            m,
            t,
        ),
        t >= p.crit_ts + CRIT_RATE_LIMIT_CYCLES && m.free_heap_bytes < HEALTH_HEAP_MIN_BYTES
            ==> records_alert(p, m, t),
{
}

/// The first decision takes the transport error count as its baseline: a
/// second decision on the same healthy metric set raises no alert for
/// errors that were already there.
pub proof fn lemma_first_decision_baseline(p: Padre, m: Metrics, t1: u32, t2: u32)
    requires
        !p.inited,
        m.free_heap_bytes >= HEALTH_HEAP_MIN_BYTES,
        m.stack_usage_pct <= HEALTH_STACK_MAX_PCT,
        m.consecutive_failures < HEALTH_MAX_CONSEC_FAIL,
        m.battery_mv == 0 || m.battery_mv >= BATTERY_CUTOFF_MV,
    ensures
        decide_spec(p, m, t1).0.last_err == m.transport_errors,
        keeps_alert_record(decide_spec(p, m, t1).0, m, t2),
        decide_spec(decide_spec(p, m, t1).0, m, t2).0.has_crit == p.has_crit,
{
}

/// The emission test measures the reading against the reference, the last
/// value transmitted: within DELTA_MIN of it, a healthy cycle with no
/// heartbeat due stays silent and keeps the reference; DELTA_MAX or more
/// away from it, the cycle emits once the spacing floor is reached and the
/// reading becomes the reference.
pub proof fn lemma_gap_to_reference(p: Padre, m: Metrics, t: u32)
    requires
        p.inited,
    ensures
        ({
            let x = reading(m);
            let gap = if x >= p.r {
                x - p.r
            } else {
                p.r - x
            };
            &&& (gap < DELTA_MIN && p.age + 1 < HEARTBEAT_MAX && m.free_heap_bytes
                >= HEALTH_HEAP_MIN_BYTES && m.stack_usage_pct <= HEALTH_STACK_MAX_PCT
                && m.consecutive_failures < HEALTH_MAX_CONSEC_FAIL && m.transport_errors
                <= p.last_err && (m.battery_mv == 0 || m.battery_mv >= BATTERY_CUTOFF_MV))
                ==> !decide_spec(p, m, t).1 && decide_spec(p, m, t).0.r == p.r
            &&& (gap >= DELTA_MAX && p.mctr != 0 && p.age + 1 >= p.kmin) ==> decide_spec(p, m, t).1
                && decide_spec(p, m, t).0.r == x
        }),
{
}

/// Between DELTA_MIN and DELTA_MAX, the deadband is KAPPA times the updated
/// mean deviation: a gap to the reference at least that large emits once
/// the spacing floor is reached; a smaller one, in a healthy cycle with no
/// heartbeat due, stays silent.
pub proof fn lemma_adaptive_deadband(p: Padre, m: Metrics, t: u32)
    requires
        p.inited,
        decision_in_range(p, m),
    ensures
        ({
            let x = reading(m);
            let gap = if x >= p.r {
                x - p.r
            } else {
                p.r - x
            };
            let d2 = decide_spec(p, m, t).0.d;
            &&& (gap >= KAPPA * d2 && gap >= DELTA_MIN && p.mctr != 0 && p.age + 1 >= p.kmin)
                ==> decide_spec(p, m, t).1
            &&& (gap < KAPPA * d2 && gap < DELTA_MAX && p.age + 1 < HEARTBEAT_MAX
                && m.free_heap_bytes >= HEALTH_HEAP_MIN_BYTES && m.stack_usage_pct
                <= HEALTH_STACK_MAX_PCT && m.consecutive_failures < HEALTH_MAX_CONSEC_FAIL
                && m.transport_errors <= p.last_err && (m.battery_mv == 0 || m.battery_mv
                >= BATTERY_CUTOFF_MV)) ==> !decide_spec(p, m, t).1
        }),
{
    let x = reading(m);
    lemma_ewma_between(p.s as int, x);
    let s2 = ewma_step(p.s as int, x);
    lemma_ewma_between(p.d as int, abs_spec(x - s2));
}

/// The estimator moves by one eighth of the error, rounded down: the
/// average towards the reading, the mean deviation towards the distance
/// between the reading and the new average.
pub proof fn lemma_estimator_steps(p: Padre, m: Metrics, t: u32)
    requires
        p.inited,
        decision_in_range(p, m),
    ensures
        ({
            let x = reading(m);
            let q = decide_spec(p, m, t).0;
            let dev = if x >= q.s {
                x - q.s
            } else {
                q.s - x
            };
            &&& 8 * (q.s - p.s) <= x - p.s < 8 * (q.s - p.s) + 8
            &&& 8 * (q.d - p.d) <= dev - p.d < 8 * (q.d - p.d) + 8
        }),
{
    let x = reading(m);
    lemma_ewma_between(p.s as int, x);
    let s2 = ewma_step(p.s as int, x);
    lemma_ewma_between(p.d as int, abs_spec(x - s2));
}

/// When the countdown ends, the decision recomputes the spacing floor from
/// the battery reading and restarts the countdown for
/// ENERGY_RECALC_PERIOD - 1 further decisions; before that it keeps the
/// floor.
pub proof fn lemma_floor_recompute(p: Padre, m: Metrics, t: u32)
    requires
        p.inited,
    ensures
        p.mctr == 0 ==> decide_spec(p, m, t).0.kmin == k_min_spec(m.battery_mv) && decide_spec(
            p,
            m,
            t,
        ).0.mctr == ENERGY_RECALC_PERIOD - 1,
        p.mctr != 0 ==> decide_spec(p, m, t).0.kmin == p.kmin && decide_spec(p, m, t).0.mctr
            == p.mctr - 1,
{
}

/// The sleep lasts the current interval plus the deferral when that lies
/// within [T_MIN_S, T_MAX_S], T_MAX_S in survival, and is cut to the bounds
/// otherwise.
pub proof fn lemma_sleep_secs(survival: bool, interval: u32, defer: u32)
    ensures
        survival ==> sleep_secs_spec(survival, interval, defer) == T_MAX_S,
        !survival && T_MIN_S <= interval + defer <= T_MAX_S ==> sleep_secs_spec(
            survival,
            interval,
            defer,
        ) == interval + defer,
        !survival && interval + defer < T_MIN_S ==> sleep_secs_spec(survival, interval, defer)
            == T_MIN_S,
        !survival && interval + defer > T_MAX_S ==> sleep_secs_spec(survival, interval, defer)
            == T_MAX_S,
{
}

} // verus!
