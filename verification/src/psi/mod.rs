//! Program specific information: sections, their checksum, the packets that
//! carry them and the tables that they hold.

pub mod crc;
pub mod eit;
pub mod header;
pub mod laws;
pub mod pairs;
pub mod pat;
pub mod pmt;
pub mod sdt;
pub mod section;
pub mod tdt;
pub mod time;
pub mod tot;

pub use crate::psi::header::{
    cached_cc, dvb_text, psi_section_changed, section_with_crc, set_section_length,
};
pub use crate::psi::time::{encode_duration, encode_dvb_time, high, low, UtcTime};
pub use crate::psi::section::{
    pack, pack_multi, Section, SectionReassembler, SectionReassemblerMap,
};
