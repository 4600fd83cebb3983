//! The time and date table.

use crate::psi::section::Section;
use crate::psi::time::{dvb_time_bytes, dvb_time_of, encode_dvb_time, UtcTime};
use vstd::prelude::*;

verus! {

pub const PID: u16 = 0x0014;

/// The table for an instant.
pub open spec fn tdt_bytes(secs: int) -> Seq<u8> {
    seq![0x70u8, 0x70, 0x05] + dvb_time_bytes(secs)
}

/// The table for an instant. From the year 0 on the day is that of the calendar.
pub fn section(now: &UtcTime) -> (r: Section)
    requires
        now.wf(),
    ensures
        r.pid == PID,
        r.bytes@ == tdt_bytes(now.secs as int),
        now.secs >= -62_162_035_200 ==> r.bytes@ == seq![0x70u8, 0x70, 0x05] + dvb_time_of(
            now.secs as int,
        ),
{
    let time = encode_dvb_time(now);
    let mut bytes: Vec<u8> = Vec::new();
    bytes.push(0x70);
    bytes.push(0x70);
    bytes.push(0x05);
    bytes.extend_from_slice(time.as_slice());
    assert(bytes@ =~= seq![0x70u8, 0x70, 0x05] + time@);
    Section { pid: PID, bytes }
}

} // verus!
