//! The time offset table.

use crate::psi::crc::with_crc;
use crate::psi::header::{section_with_crc, set_section_length, with_length};
use crate::psi::section::Section;
use crate::psi::time::{
    dvb_time_bytes, encode_dvb_time, get_local_offset_bcd, offset_field, zone_offset_of, UtcTime,
};
use vstd::prelude::*;
use vstd::utf8::{encode_utf8, is_char_boundary};

verus! {

pub const PID: u16 = 0x0014;

/// The descriptor of the local offset from UTC. No change of it is announced.
pub open spec fn offset_descriptor(country: Seq<u8>, offset: Seq<u8>) -> Seq<u8> {
    seq![0x58u8, 13] + country + seq![0x00u8] + offset + seq![0xFFu8, 0xFF, 0xFF, 0xFF, 0xFF]
        + offset
}

/// The table without its checksum.
pub open spec fn tot_body(time: Seq<u8>, country: Seq<u8>, offset: Seq<u8>) -> Seq<u8> {
    with_length(
        seq![0x73u8, 0x70, 0x00] + time + seq![0xF0u8, 15] + offset_descriptor(country, offset),
    )
}

/// The table for an instant, a country and its offset from UTC.
pub open spec fn tot_bytes(secs: int, country_code: Seq<char>, offset: int) -> Seq<u8> {
    with_crc(
        tot_body(
            dvb_time_bytes(secs),
            encode_utf8(country_code).take(3),
            offset_field(offset),
        ),
    )
}

/// The table for an instant, with the offset that a time zone has at the reading
/// `clock` of the clock; none for a zone that is not known.
pub fn section(now: &UtcTime, country_code: &str, timezone: &str, clock: &UtcTime) -> (r: Option<
    Section,
>)
    requires
        now.wf(),
        clock.wf(),
        encode_utf8(country_code@).len() >= 3,
        is_char_boundary(encode_utf8(country_code@), 3),
    ensures
        r is Some == zone_offset_of(timezone@, clock.secs) is Some,
        r matches Some(s) ==> s.pid == PID && s.bytes@ == tot_bytes(
            now.secs as int,
            country_code@,
            zone_offset_of(timezone@, clock.secs)->0 as int,
        ),
{
    let offset = match get_local_offset_bcd(timezone, clock) {
        Some(offset) => offset,
        None => return None,
    };
    let country = vstd::slice::slice_subrange(country_code.as_bytes(), 0, 3);
    let time = encode_dvb_time(now);
    let mut bytes: Vec<u8> = Vec::new();
    bytes.push(0x73);
    bytes.push(0x70);
    bytes.push(0x00);
    bytes.extend_from_slice(time.as_slice());
    bytes.push(0xF0);
    bytes.push(15);
    bytes.push(0x58);
    bytes.push(13);
    bytes.extend_from_slice(country);
    bytes.push(0x00);
    bytes.extend_from_slice(offset.as_slice());
    bytes.push(0xFF);
    bytes.push(0xFF);
    bytes.push(0xFF);
    bytes.push(0xFF);
    bytes.push(0xFF);
    bytes.extend_from_slice(offset.as_slice());
    assert(country@ =~= encode_utf8(country_code@).take(3));
    assert(bytes@ =~= seq![0x73u8, 0x70, 0x00] + time@ + seq![0xF0u8, 15] + offset_descriptor(
        country@,
        offset@,
    ));
    set_section_length(&mut bytes);
    assert(bytes@ == tot_body(time@, country@, offset@));
    Some(section_with_crc(PID, bytes))
}

} // verus!
