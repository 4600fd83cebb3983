//! Transport protocols.

pub mod rtp;
