//! Verified core of a multi-slot inference server.

pub mod admission;
pub mod backpressure;
pub mod bench_concurrency;
pub mod chat;
pub mod checkpoint;
pub mod commands;
pub mod commit;
pub mod dflash_slot;
pub mod dflash_verify_pm4;
pub mod engine_state;
pub mod fairness;
pub mod fingerprint;
pub mod glimmer_batch;
pub mod grammar;
pub mod http;
pub mod json;
pub mod metrics;
pub mod mtp;
pub mod policy;
pub mod rig;
pub mod rig_build;
pub mod scheduler;
pub mod serve_contract;
pub mod serve_loop;
pub mod slot_batch;
pub mod step;
pub mod step_rows;
pub mod teardown;
pub mod text;
pub mod vision;
