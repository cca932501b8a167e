//! Constants and thresholds of the module.
//!
//! Every value that drives the emission decision (PADRE) lives here. Each
//! threshold is a physical limit, derived from a budget, or calibrated.
use vstd::prelude::*;

verus! {

// --- Server endpoint (handed to the transport; ignored over BLE) ---
pub const SERVER_PORT: u32 = 8080;
pub const NETWORK_TIMEOUT: u32 = 30;
pub const SOCKET_TIMEOUT: u32 = 5;

// --- Base rhythm ---
/// Base period of one cycle (s).
pub const T_C_SECS: u32 = 2;
/// Lower bound of the sleep interval (s).
pub const T_MIN_S: u32 = 2;
/// Upper bound of the sleep interval, survival mode (s).
pub const T_MAX_S: u32 = 10;
/// Bounds of a live interval reconfiguration (s).
pub const INTERVAL_MIN_S: u32 = 1;
pub const INTERVAL_MAX_S: u32 = 300;

// --- PADRE / E1: online estimation (EWMA + MAD) as shifts ---
/// alpha = 1/8
pub const EWMA_SHIFT: u32 = 3;
/// beta = 1/8
pub const MAD_SHIFT: u32 = 3;

// --- PADRE / E2: adaptive deadband ---
pub const KAPPA: i32 = 3;
/// Floor of the deadband: measurement resolution.
pub const DELTA_MIN: i32 = 3;
/// Ceiling of the deadband: supervision precision.
pub const DELTA_MAX: i32 = 10;

// --- PADRE / E4: freshness (heartbeat) ---
/// Maximum age, in cycles, without an emission.
pub const HEARTBEAT_MAX: u32 = 15;

// --- PADRE / E4: critical preemption ---
pub const HEALTH_HEAP_MIN_BYTES: u32 = 4096;
pub const HEALTH_STACK_MAX_PCT: u32 = 85;
pub const HEALTH_MAX_CONSEC_FAIL: u32 = 3;
/// Li-ion cut-off: alert and survival.
pub const BATTERY_CUTOFF_MV: u32 = 3300;
/// At most one critical alert per this many cycles.
pub const CRIT_RATE_LIMIT_CYCLES: u32 = 30;

// --- PADRE: deferral under heavy load ---
pub const LOAD_HIGH_CPU_PCT: u32 = 90;
pub const LOAD_DEFER_STEP: u32 = 2;
pub const LOAD_DEFER_MAX: u32 = 4;

// --- PADRE / E3: energy regulation (budget -> floor k_min) ---
/// M: amortised recomputation period of k_min.
pub const ENERGY_RECALC_PERIOD: u32 = 30;
/// Maximum spacing, also the survival sentinel.
pub const K_MAX: u32 = 255;
/// Energy of one cycle without emission (mC).
pub const E_C_MC: u64 = 5;
/// Extra cost of one emission (mC).
pub const E_S_MC: u64 = 20;
/// Targeted lifetime horizon (24 h).
pub const L_REM_SECS: u64 = 86_400;
/// Linear state-of-charge approximation from battery_mv.
pub const BATTERY_FULL_MV: u32 = 4200;
pub const BATTERY_EMPTY_MV: u32 = 3300;
/// 1000 mAh in mC.
pub const BATTERY_CAPACITY_MC: u64 = 3_600_000;

// --- Buffer capacities ---
pub const CBOR_CAP: usize = 512;
/// 2 (length prefix) + CBOR.
pub const TX_CAP: usize = 544;
pub const RX_CAP: usize = 128;
pub const LOG_CAP: usize = 160;
pub const ID_CAP: usize = 32;

} // verus!
