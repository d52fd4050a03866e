//! Post-mortem analysis of captured DNS traffic.

pub mod address;
pub mod analyzer;
pub mod answered;
pub mod dns;
pub mod domain;
pub mod event;
pub mod laws;
pub mod net;
pub mod nxdomain;
pub mod report;
pub mod root_cause;
pub mod seqs;
pub mod tables;
pub mod text;
pub mod ttl;
pub mod wire;

pub use crate::event::Timestamp;
