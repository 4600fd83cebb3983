//! Packetised elementary streams, and what an elementary stream says about
//! itself.

pub mod es;
pub mod es_parsers;
pub mod golomb;
pub mod laws;
pub mod parser;
pub mod pes;
pub mod sps;
