//! MPEG transport stream multiplexing: packets, program tables, elementary
//! streams, clocks, buffering and the rules by which a mux is supervised.

pub mod biss;
pub mod bits;
pub mod buffer;
pub mod clock;
pub mod config;
pub mod epg;
pub mod hls_client;
pub mod http_router;
pub mod misc;
pub mod mux;
pub mod packet;
pub mod pes;
pub mod probe;
pub mod probe_laws;
pub mod proto;
pub mod psi;
pub mod status;
pub mod supervisor;
pub mod text;
pub mod workers;
