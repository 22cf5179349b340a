//! Telemetry decoding, bookkeeping and validation for an Apple Silicon
//! performance monitor.
pub mod text;
pub mod engine;
pub mod cpu;
pub mod gpu;
pub mod ioreport;
pub mod smc;
pub mod measure;
pub mod record;
pub mod error;
pub mod install;
pub mod metrics;
pub mod output;
pub mod pm;
pub mod ui;
pub mod menubar;
pub mod xml;
pub mod activity;
pub mod ffi;
