//! Verified core of the Quelay stream relay.

pub mod bandwidth;
pub mod callback;
pub mod cic;
pub mod config;
pub mod demo;
pub mod digest;
pub mod downlink;
pub mod e2e;
pub mod error;
pub mod failure;
pub mod framing;
pub mod gate;
pub mod ids;
pub mod line_laws;
pub mod linksim;
pub mod mapping;
pub mod notice;
pub mod priority;
pub mod pump;
pub mod quic;
pub mod rate;
pub mod relay_laws;
pub mod runtime;
pub mod scheduler;
pub mod scheduler_laws;
pub mod session;
pub mod session_laws;
pub mod session_manager;
pub mod spool;
pub mod text;
pub mod transfer_laws;
pub mod transport;
pub mod tuner;
pub mod uplink;
