//! The multiplexer: buffers of packets, the program clock, and the handler that
//! turns an incoming stream into an outgoing one.

pub mod handler;
pub mod input_laws;
pub mod laws;
pub mod out_buffer;
pub mod output_laws;
pub mod reports;
pub mod restamper;
pub mod start_laws;
pub mod state;
pub mod table_laws;

pub use crate::mux::handler::PacketHandler;
pub use crate::mux::out_buffer::{OutBuffer, TsPacket};
pub use crate::mux::reports::MuxReport;
pub use crate::mux::restamper::PcrRestamper;
