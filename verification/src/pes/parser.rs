//! Packetised elementary streams: put together from packets, and parsed.

use crate::bits::lemma_byte_parts;
use crate::buffer::{
    buffer_clear, buffer_extend, buffer_len, buffer_new, buffer_slice, held_bytes,
};
use crate::packet::{payload_start, pid_of, pkt_pid, unit_start, TS_PACKET_SIZE, TS_SYNC_BYTE};
use crate::pes::es_parsers::{parse_es, parsed_es};
use crate::pes::pes::{blank_pes, Pes};
use bytes::BytesMut;
use std::collections::HashMap;
use vstd::prelude::*;

verus! {

broadcast use vstd::std_specs::hash::group_hash_axioms;

/// Whether data begins with a whole header of an elementary stream packet.
pub open spec fn pes_header(d: Seq<u8>) -> bool {
    &&& d.len() >= 9
    &&& d[0] == 0 && d[1] == 0 && d[2] == 1
    &&& d[6] / 64 == 2
    &&& d.len() >= 9 + d[8]
}

/// What the header of an elementary stream packet says, and what is found in
/// the stream behind it.
pub open spec fn pes_of(d: Seq<u8>, pid: u16, stream_type: Option<u8>) -> Option<Pes> {
    if !pes_header(d) {
        None
    } else {
        Some(
            Pes {
                stream_id: d[6],
                scrabling: (d[6] / 16) % 4,
                priority: (d[6] / 8) % 2,
                alignment_indicator: (d[6] / 4) % 2,
                copyright: (d[6] / 2) % 2,
                original_or_copy: d[6] % 2,
                flags_pts_dts: d[7] / 64,
                flag_escr: (d[7] / 32) % 2,
                flag_es_rate: (d[7] / 16) % 2,
                flag_dsm_trick_mode: (d[7] / 8) % 2,
                flag_additional_copy_info: (d[7] / 4) % 2,
                flag_crc: (d[7] / 2) % 2,
                flag_extension: d[7] % 2,
                es: match stream_type {
                    Some(t) => parsed_es(t, d.skip(9 + d[8] as int)),
                    None => None,
                },
                ..blank_pes(pid)
            },
        )
    }
}

/// Parses packets of elementary streams.
pub struct Parser;

impl Parser {
    /// Parses the packet that data begins with, and the elementary stream of a
    /// known type behind its header.
    pub fn parse(data: &[u8], pid: u16, stream_type: Option<u8>) -> (r: Option<Pes>)
        ensures
            r == pes_of(data@, pid, stream_type),
    {
        if data.len() < 9 {
            return None;
        }
        if data[0] != 0 || data[1] != 0 || data[2] != 1 {
            return None;
        }
        let marker: u8 = data[6];
        let flags: u8 = data[7];
        if marker / 64 != 2 {
            return None;
        }
        let header_len: usize = data[8] as usize;
        if data.len() - 9 < header_len {
            return None;
        }
        let mut pes = Pes::new(pid);
        pes.stream_id = marker;
        pes.scrabling = (marker / 16) % 4;
        pes.priority = (marker / 8) % 2;
        pes.alignment_indicator = (marker / 4) % 2;
        pes.copyright = (marker / 2) % 2;
        pes.original_or_copy = marker % 2;
        pes.flags_pts_dts = flags / 64;
        pes.flag_escr = (flags / 32) % 2;
        pes.flag_es_rate = (flags / 16) % 2;
        pes.flag_dsm_trick_mode = (flags / 8) % 2;
        pes.flag_additional_copy_info = (flags / 4) % 2;
        pes.flag_crc = (flags / 2) % 2;
        pes.flag_extension = flags % 2;
        if let Some(t) = stream_type {
            let es_data = vstd::slice::slice_subrange(data, 9 + header_len, data.len());
            assert(es_data@ =~= data@.skip(9 + data@[8] as int));
            pes.es = parse_es(t, es_data);
        }
        Some(pes)
    }
}

/// What a packet carries.
pub open spec fn payload_of(packet: Seq<u8>) -> Seq<u8> {
    match payload_start(packet) {
        Some(at) => if at <= packet.len() {
            packet.skip(at)
        } else {
            Seq::empty()
        },
        None => Seq::empty(),
    }
}

/// The packet of an elementary stream of which something is known.
pub open spec fn told_pes(bytes: Seq<u8>, pid: u16, stream_type: u8) -> Option<Pes> {
    if bytes.len() > 0 {
        match pes_of(bytes, pid, Some(stream_type)) {
            Some(pes) => if pes.es is Some {
                Some(pes)
            } else {
                None
            },
            None => None,
        }
    } else {
        None
    }
}

/// What has been gathered of an elementary stream packet, and the one before
/// that told something, after a packet. The start of the next one ends it: if it
/// told something, it stays; else the next one is gathered.
pub open spec fn pes_gathered(
    bytes: Seq<u8>,
    pid: u16,
    stream_type: u8,
    packet: Seq<u8>,
) -> (Seq<u8>, Option<Pes>) {
    if packet.len() < 188 || packet[0] != TS_SYNC_BYTE || pid_of(packet) != pid || payload_start(
        packet,
    ) is None {
        (bytes, None)
    } else if unit_start(packet) {
        match told_pes(bytes, pid, stream_type) {
            Some(pes) => (bytes, Some(pes)),
            None => (payload_of(packet), None),
        }
    } else if bytes.len() > 0 {
        (bytes + payload_of(packet), None)
    } else {
        (bytes, None)
    }
}

/// Gathers the elementary stream packets of one packet identifier.
pub struct PesReassembler {
    pid: u16,
    stream_type: u8,
    buffer: BytesMut,
}

/// What is gathered for a packet identifier.
#[verifier::ext_equal]
pub struct PesPending {
    pub pid: u16,
    pub stream_type: u8,
    pub bytes: Seq<u8>,
}

impl View for PesReassembler {
    type V = PesPending;

    closed spec fn view(&self) -> PesPending {
        PesPending {
            pid: self.pid,
            stream_type: self.stream_type,
            bytes: held_bytes(self.buffer),
        }
    }
}

impl PesReassembler {
    pub fn new(pid: u16, stream_type: u8) -> (r: Self)
        ensures
            r@ == (PesPending { pid, stream_type, bytes: Seq::empty() }),
    {
        PesReassembler { pid, stream_type, buffer: buffer_new(1024) }
    }

    /// Takes in a packet, and hands back the elementary stream packet before it
    /// if that told something.
    pub fn push(&mut self, packet: &[u8]) -> (r: Option<Pes>)
        requires
            old(self)@.bytes.len() + packet@.len() <= usize::MAX / 8,
        ensures
            final(self)@ == (PesPending {
                bytes: pes_gathered(
                    old(self)@.bytes,
                    old(self)@.pid,
                    old(self)@.stream_type,
                    packet@,
                ).0,
                ..old(self)@
            }),
            r == pes_gathered(
                old(self)@.bytes,
                old(self)@.pid,
                old(self)@.stream_type,
                packet@,
            ).1,
    {
        if packet.len() < TS_PACKET_SIZE || packet[0] != TS_SYNC_BYTE {
            return None;
        }
        let pid = pkt_pid(packet);
        if pid != self.pid {
            return None;
        }
        let control: u8 = (packet[3] / 16) % 4;
        let offset: usize = match control {
            1 => 4,
            3 => 5 + packet[4] as usize,
            _ => return None,
        };
        let from: usize = if offset <= packet.len() {
            offset
        } else {
            packet.len()
        };
        let payload = vstd::slice::slice_subrange(packet, from, packet.len());
        assert(payload@ =~= payload_of(packet@));
        let pusi = (packet[1] / 64) % 2 == 1;
        if pusi {
            if buffer_len(&self.buffer) > 0 {
                if let Some(pes) = Parser::parse(
                    buffer_slice(&self.buffer),
                    pid,
                    Some(self.stream_type),
                ) {
                    if pes.es.is_some() {
                        return Some(pes);
                    }
                }
            }
            buffer_clear(&mut self.buffer);
            buffer_extend(&mut self.buffer, payload);
            assert(Seq::<u8>::empty() + payload@ =~= payload@);
        } else if buffer_len(&self.buffer) > 0 {
            buffer_extend(&mut self.buffer, payload);
        }
        None
    }
}

/// What is gathered for each packet identifier, and the elementary stream packet
/// that told something, after a packet. Only streams of a known type are
/// gathered.
pub open spec fn map_gathered(
    m: Map<u16, PesPending>,
    packet: Seq<u8>,
    types: Map<u16, u8>,
) -> (Map<u16, PesPending>, Option<Pes>) {
    if packet.len() < 188 || packet[0] != TS_SYNC_BYTE || !types.contains_key(
        pid_of(packet) as u16,
    ) {
        (m, None)
    } else {
        let pid = pid_of(packet) as u16;
        let p = if m.contains_key(pid) {
            m[pid]
        } else {
            PesPending { pid, stream_type: types[pid], bytes: Seq::empty() }
        };
        let step = pes_gathered(p.bytes, p.pid, p.stream_type, packet);
        (m.insert(pid, PesPending { bytes: step.0, ..p }), step.1)
    }
}

/// Gathers the elementary stream packets of every packet identifier.
pub struct PesReassemblerMap {
    per_pid: HashMap<u16, PesReassembler>,
}

impl View for PesReassemblerMap {
    type V = Map<u16, PesPending>;

    closed spec fn view(&self) -> Map<u16, PesPending> {
        self.per_pid@.map_values(|r: PesReassembler| r@)
    }
}

impl PesReassemblerMap {
    pub fn new() -> (r: Self)
        ensures
            r@ == Map::<u16, PesPending>::empty(),
    {
        let r = PesReassemblerMap { per_pid: HashMap::new() };
        assert(r@ =~= Map::<u16, PesPending>::empty());
        r
    }

    /// Takes in a packet of a stream whose type is known, and hands back the
    /// elementary stream packet before it if that told something.
    pub fn push(&mut self, packet: &[u8], pid_to_stream: &HashMap<u16, u8>) -> (r: Option<Pes>)
        requires
            packet@.len() <= usize::MAX / 16,
            forall|pid: u16| #[trigger]
                old(self)@.contains_key(pid) ==> old(self)@[pid].bytes.len() <= usize::MAX / 16,
        ensures
            final(self)@ == map_gathered(old(self)@, packet@, pid_to_stream@).0,
            r == map_gathered(old(self)@, packet@, pid_to_stream@).1,
    {
        if packet.len() < TS_PACKET_SIZE || packet[0] != TS_SYNC_BYTE {
            return None;
        }
        let pid = pkt_pid(packet);
        let stream_type: u8 = match pid_to_stream.get(&pid) {
            Some(t) => *t,
            None => return None,
        };
        let mut reassembler = match self.per_pid.remove(&pid) {
            Some(r) => {
                assert(old(self)@.contains_key(pid) && old(self)@[pid] == r@);
                r
            },
            None => PesReassembler::new(pid, stream_type),
        };
        let pes = reassembler.push(packet);
        self.per_pid.insert(pid, reassembler);
        assert(self@ =~= map_gathered(old(self)@, packet@, pid_to_stream@).0);
        pes
    }
}

/// The header comes back from what was parsed: the flags are those of the two
/// bytes that hold them.
pub proof fn law_pes_flags(d: Seq<u8>, pid: u16, stream_type: Option<u8>)
    requires
        pes_header(d),
    ensures
        ({
            let p = pes_of(d, pid, stream_type)->0;
            &&& p.pid == pid
            &&& d[6] == 128 + p.scrabling * 16 + p.priority * 8 + p.alignment_indicator * 4
                + p.copyright * 2 + p.original_or_copy
            &&& d[7] == p.flags_pts_dts * 64 + p.flag_escr * 32 + p.flag_es_rate * 16
                + p.flag_dsm_trick_mode * 8 + p.flag_additional_copy_info * 4 + p.flag_crc * 2
                + p.flag_extension
        }),
{
    lemma_byte_parts(d[6]);
    lemma_byte_parts(d[7]);
}

} // verus!
