//! The header of a packetised elementary stream.

use crate::pes::es::Es;
use vstd::prelude::*;

verus! {

/// A packet of an elementary stream: its header, and what is known of the
/// stream.
#[derive(Debug, Clone, Copy, PartialEq, Eq)]
pub struct Pes {
    pub pid: u16,
    pub stream_id: u8,
    pub scrabling: u8,
    pub priority: u8,
    pub alignment_indicator: u8,
    pub copyright: u8,
    pub original_or_copy: u8,
    pub flags_pts_dts: u8,
    pub flag_escr: u8,
    pub flag_es_rate: u8,
    pub flag_dsm_trick_mode: u8,
    pub flag_additional_copy_info: u8,
    pub flag_crc: u8,
    pub flag_extension: u8,
    pub pts: Option<u64>,
    pub dts: Option<u64>,
    pub es: Option<Es>,
}

/// A packet of which nothing is known but its identifier.
pub open spec fn blank_pes(pid: u16) -> Pes {
    Pes {
        pid,
        stream_id: 0,
        scrabling: 0,
        priority: 0,
        alignment_indicator: 0,
        copyright: 0,
        original_or_copy: 0,
        flags_pts_dts: 0,
        flag_escr: 0,
        flag_es_rate: 0,
        flag_dsm_trick_mode: 0,
        flag_additional_copy_info: 0,
        flag_crc: 0,
        flag_extension: 0,
        pts: None,
        dts: None,
        es: None,
    }
}

impl Pes {
    pub fn new(pid: u16) -> (r: Self)
        ensures
            r == blank_pes(pid),
    {
        Pes {
            pid,
            stream_id: 0,
            scrabling: 0,
            priority: 0,
            alignment_indicator: 0,
            copyright: 0,
            original_or_copy: 0,
            flags_pts_dts: 0,
            flag_escr: 0,
            flag_es_rate: 0,
            flag_dsm_trick_mode: 0,
            flag_additional_copy_info: 0,
            flag_crc: 0,
            flag_extension: 0,
            pts: None,
            dts: None,
            es: None,
        }
    }
}

} // verus!
