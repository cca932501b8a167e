//! Portable metrics module.
//!
//! Collects raw system metrics, computes the derived quantities, decides
//! when a measurement is worth sending (the PADRE engine), and frames each
//! record as length-prefixed CBOR for an abstract transport (Wi-Fi or BLE).
//! Every computation happens here; the host only supplies raw values and
//! carries bytes. Nothing here allocates: the frame, the log lines and the
//! identity strings live in fixed buffers of the caller or on the stack.
//!
//! - `config`: constants and thresholds;
//! - `metrics`: the metric set, the runtime counters, the derived values;
//! - `identity`: the node identity resolved from the host, and node_id;
//! - `cbor`: CBOR encoding, the record and its frame, and the reading side;
//! - `padre`: the emission decision engine and the sleep rhythm;
//! - `comms`: acknowledgement handling and live interval reconfiguration;
//! - `log`: the decimal format and the log lines.
use vstd::prelude::*;

pub mod cbor;
pub mod comms;
pub mod config;
pub mod identity;
pub mod log;
pub mod metrics;
pub mod padre;

verus! {

} // verus!
