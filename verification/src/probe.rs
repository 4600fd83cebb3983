//! Finding out what a stream holds: its programs, their services and the kinds
//! of their elementary streams.

use crate::biss::packet_at;
use crate::buffer::{
    buffer_extend, buffer_len, buffer_new, buffer_slice, held_bytes, shared_bytes, shared_slice,
};
use crate::mux::handler::PacketHandler;
use crate::mux::state::synced;
use crate::packet::{pid_of, pkt_pid, TS_PACKET_SIZE, TS_SYNC_BYTE};
use crate::pes::es::description_of;
use crate::pes::parser::{map_gathered, PesPending, PesReassemblerMap};
use crate::psi::pat::{analyze_pat, pat_programs, PatInfo};
use crate::psi::pmt::{
    pmt_of, streams_view, try_analyze_pmt, PmtInfo, PmtModel, StreamInfo, StreamModel,
};
use crate::psi::sdt::{sdt_services, services_view, try_analyze_sdt, SdtInfo, SdtModel};
use crate::psi::section::{map_reassembled, SectionReassemblerMap};
use crate::psi::time::UtcTime;
use bytes::{Bytes, BytesMut};
use std::collections::HashMap;
use vstd::prelude::*;
use vstd::string::StringExecFns;

verus! {

broadcast use vstd::std_specs::hash::group_hash_axioms;

pub const PROBE_BUFFER_SIZE: usize = 15_728_640;

/// A program that was found.
#[derive(Debug, Clone)]
pub struct ProbeProgram {
    pub pat: PatInfo,
    pub pmt: Option<PmtInfo>,
    pub sdt: Option<SdtInfo>,
}

/// What was found of a program.
#[verifier::ext_equal]
pub struct ProgramModel {
    pub pat: PatInfo,
    pub pmt: Option<PmtModel>,
    pub sdt: Option<SdtModel>,
}

impl View for ProbeProgram {
    type V = ProgramModel;

    open spec fn view(&self) -> ProgramModel {
        ProgramModel {
            pat: self.pat,
            pmt: match self.pmt {
                Some(p) => Some(p@),
                None => None,
            },
            sdt: match self.sdt {
                Some(s) => Some(s@),
                None => None,
            },
        }
    }
}

impl ProbeProgram {
    pub fn new(pat: PatInfo) -> (r: Self)
        ensures
            r@ == (ProgramModel { pat, pmt: None, sdt: None }),
    {
        ProbeProgram { pat, pmt: None, sdt: None }
    }

    pub fn set_pmt(&mut self, pmt: PmtInfo)
        ensures
            final(self)@ == (ProgramModel { pmt: Some(pmt@), ..old(self)@ }),
    {
        self.pmt = Some(pmt);
    }

    pub fn set_sdt(&mut self, sdt: SdtInfo)
        ensures
            final(self)@ == (ProgramModel { sdt: Some(sdt@), ..old(self)@ }),
    {
        self.sdt = Some(sdt);
    }
}

/// The programs that were found.
#[derive(Debug, Clone)]
pub struct ProbeInfo {
    pub probe_programs: Vec<ProbeProgram>,
}

impl View for ProbeInfo {
    type V = Seq<ProgramModel>;

    open spec fn view(&self) -> Seq<ProgramModel> {
        self.probe_programs@.map_values(|p: ProbeProgram| p@)
    }
}

/// The first program with a number.
pub open spec fn program_with_number(programs: Seq<ProgramModel>, number: u16, i: int) -> Option<int>
    decreases programs.len() - i,
{
    if i >= programs.len() {
        None
    } else if programs[i].pat.prog_num == number {
        Some(i)
    } else {
        program_with_number(programs, number, i + 1)
    }
}

/// The first program whose map has this packet identifier.
pub open spec fn program_with_map(programs: Seq<ProgramModel>, pid: u16, i: int) -> Option<int>
    decreases programs.len() - i,
{
    if i >= programs.len() {
        None
    } else if programs[i].pat.pmt_pid == pid {
        Some(i)
    } else {
        program_with_map(programs, pid, i + 1)
    }
}

/// The first program whose map was not found yet.
pub open spec fn program_without_map(programs: Seq<ProgramModel>, i: int) -> Option<int>
    decreases programs.len() - i,
{
    if i >= programs.len() {
        None
    } else if programs[i].pmt is None {
        Some(i)
    } else {
        program_without_map(programs, i + 1)
    }
}

/// The first elementary stream of a map with a packet identifier.
pub open spec fn stream_with_pid(streams: Seq<StreamModel>, pid: u16, j: int) -> Option<int>
    decreases streams.len() - j,
{
    if j >= streams.len() {
        None
    } else if streams[j].pid == pid {
        Some(j)
    } else {
        stream_with_pid(streams, pid, j + 1)
    }
}

/// The first elementary stream of all programs with a packet identifier: the
/// program, and its place in the map.
pub open spec fn stream_of_programs(programs: Seq<ProgramModel>, pid: u16, i: int) -> Option<
    (int, int),
>
    decreases programs.len() - i,
{
    if i >= programs.len() {
        None
    } else {
        let here = match programs[i].pmt {
            Some(pmt) => stream_with_pid(pmt.streams, pid, 0),
            None => None,
        };
        match here {
            Some(j) => Some((i, j)),
            None => stream_of_programs(programs, pid, i + 1),
        }
    }
}

/// The programs with a service noted at the program that it belongs to.
pub open spec fn with_service(programs: Seq<ProgramModel>, s: SdtModel) -> Seq<ProgramModel> {
    match program_with_number(programs, s.service_id, 0) {
        Some(i) => programs.update(i, ProgramModel { sdt: Some(s), ..programs[i] }),
        None => programs,
    }
}

/// The programs with services noted, one after the other.
pub open spec fn with_services(programs: Seq<ProgramModel>, services: Seq<SdtModel>) -> Seq<
    ProgramModel,
>
    decreases services.len(),
{
    if services.len() == 0 {
        programs
    } else {
        with_services(with_service(programs, services[0]), services.drop_first())
    }
}

/// Whether something can be found out about streams of this type.
pub open spec fn known_type(t: u8) -> bool {
    t == 2 || t == 3 || t == 4 || t == 15 || t == 27
}

/// The streams that are to be looked at, with those of a map added.
pub open spec fn with_types(types: Map<u16, u8>, streams: Seq<StreamModel>) -> Map<u16, u8>
    decreases streams.len(),
{
    if streams.len() == 0 {
        types
    } else {
        let rest = with_types(types, streams.drop_last());
        if known_type(streams.last().stream_type) {
            rest.insert(streams.last().pid, streams.last().stream_type)
        } else {
            rest
        }
    }
}

/// The programs with words put to an elementary stream.
pub open spec fn with_description(
    programs: Seq<ProgramModel>,
    i: int,
    j: int,
    words: Seq<char>,
) -> Seq<ProgramModel> {
    let pmt = programs[i].pmt->0;
    programs.update(
        i,
        ProgramModel {
            pmt: Some(
                PmtModel {
                    streams: pmt.streams.update(
                        j,
                        StreamModel { description: words, ..pmt.streams[j] },
                    ),
                    ..pmt
                },
            ),
            ..programs[i]
        },
    )
}

/// The state of a probe.
#[verifier::ext_equal]
pub struct ProbeState {
    pub in_buff: Seq<u8>,
    pub is_sync: bool,
    pub is_pat: bool,
    pub is_sdt: bool,
    pub is_pmt: bool,
    pub is_pes: bool,
    pub types: Map<u16, u8>,
    pub pending: Map<u16, Seq<u8>>,
    pub programs: Seq<ProgramModel>,
    pub gathered: Map<u16, PesPending>,
}

/// The list of programs.
pub open spec fn pat_probed(s: ProbeState, pkt: Seq<u8>) -> ProbeState {
    let step = map_reassembled(s.pending, pkt);
    let s1 = ProbeState { pending: step.0, ..s };
    match step.1 {
        Some(section) => if section.len() >= 4 {
            ProbeState {
                programs: pat_programs(section).map_values(
                    |pat: PatInfo| ProgramModel { pat, pmt: None, sdt: None },
                ),
                is_pat: true,
                ..s1
            }
        } else {
            s1
        },
        None => s1,
    }
}

/// The description of the services. A section whose lengths announce more than
/// it holds is passed over.
pub open spec fn sdt_probed(s: ProbeState, pkt: Seq<u8>) -> ProbeState {
    let step = map_reassembled(s.pending, pkt);
    let s1 = ProbeState { pending: step.0, ..s };
    match step.1 {
        Some(section) => match sdt_services(section) {
            Some(services) => ProbeState {
                programs: with_services(s.programs, services),
                is_sdt: true,
                ..s1
            },
            None => s1,
        },
        None => s1,
    }
}

/// The map of a program. A section whose lengths announce more than it holds is
/// passed over.
pub open spec fn pmt_probed(s: ProbeState, pkt: Seq<u8>) -> ProbeState {
    let pid = pid_of(pkt) as u16;
    let step = map_reassembled(s.pending, pkt);
    let s1 = ProbeState { pending: step.0, ..s };
    match step.1 {
        Some(section) => match pmt_of(section) {
            Some(pmt) => ProbeState {
                types: with_types(s.types, pmt.streams),
                programs: match program_with_map(s.programs, pid, 0) {
                    Some(i) => s.programs.update(
                        i,
                        ProgramModel { pmt: Some(pmt), ..s.programs[i] },
                    ),
                    None => s.programs,
                },
                ..s1
            },
            None => s1,
        },
        None => s1,
    }
}

/// A packet of an elementary stream: what it tells is noted once.
pub open spec fn pes_probed(s: ProbeState, pkt: Seq<u8>) -> ProbeState {
    let pid = pid_of(pkt) as u16;
    let step = map_gathered(s.gathered, pkt, s.types);
    let s1 = ProbeState { gathered: step.0, ..s };
    let s2 = match step.1 {
        Some(pes) => match (pes.es, stream_of_programs(s.programs, pid, 0)) {
            (Some(es), Some((i, j))) => ProbeState {
                programs: with_description(s.programs, i, j, description_of(es)),
                types: s.types.remove(pid),
                ..s1
            },
            _ => s1,
        },
        None => s1,
    };
    if s2.types =~= Map::<u16, u8>::empty() {
        ProbeState { is_pes: true, ..s2 }
    } else {
        s2
    }
}

/// One packet of the stream.
pub open spec fn packet_probed(s: ProbeState, pkt: Seq<u8>) -> ProbeState {
    let pid = pid_of(pkt) as u16;
    if pid == 0x1FFF {
        s
    } else if pid == 0x0000 && !s.is_pat {
        pat_probed(s, pkt)
    } else if pid == 0x0011 && s.is_pat && !s.is_sdt {
        sdt_probed(s, pkt)
    } else {
        let missing = program_without_map(s.programs, 0);
        let maps_open = s.is_pat && !s.is_pmt;
        if maps_open && missing is Some && s.programs[missing->0].pat.pmt_pid == pid {
            pmt_probed(s, pkt)
        } else {
            let s1 = ProbeState { is_pmt: s.is_pmt || (maps_open && missing is None), ..s };
            if s1.is_pmt && !s1.is_pes {
                pes_probed(s1, pkt)
            } else {
                s1
            }
        }
    }
}

/// The packets from `pos` on; no answer where the stream loses its
/// synchronisation.
pub open spec fn probed_from(s: ProbeState, pos: int) -> Option<ProbeState>
    decreases s.in_buff.len() - pos,
{
    if pos < 0 || pos + 188 > s.in_buff.len() {
        Some(s)
    } else if s.in_buff[pos] != TS_SYNC_BYTE {
        None
    } else {
        probed_from(
            ProbeState {
                in_buff: s.in_buff,
                ..packet_probed(s, s.in_buff.subrange(pos, pos + 188))
            },
            pos + 188,
        )
    }
}

/// What was found: nothing before the stream is synchronised, where it loses
/// its synchronisation, or without a list of programs.
pub open spec fn probe_result(s: ProbeState) -> Option<Seq<ProgramModel>> {
    if !s.is_sync {
        None
    } else {
        match probed_from(s, 0) {
            Some(end) => if end.is_pat {
                Some(end.programs)
            } else {
                None
            },
            None => None,
        }
    }
}

/// A chunk of the stream is taken in.
pub open spec fn probe_written(s: ProbeState, chunk: Seq<u8>) -> ProbeState {
    let all = s.in_buff + chunk;
    if s.is_sync {
        ProbeState { in_buff: all, ..s }
    } else {
        ProbeState { is_sync: synced(all).0, in_buff: synced(all).1, ..s }
    }
}

/// The state of a probe that has seen nothing.
pub open spec fn probe_start() -> ProbeState {
    ProbeState {
        in_buff: Seq::empty(),
        is_sync: false,
        is_pat: false,
        is_sdt: false,
        is_pmt: false,
        is_pes: false,
        types: Map::empty(),
        pending: Map::empty(),
        programs: Seq::empty(),
        gathered: Map::empty(),
    }
}

/// A probe of a stream.
pub struct Probe {
    in_buff: BytesMut,
    is_sync: bool,
    is_pat: bool,
    is_sdt: bool,
    is_pmt: bool,
    is_pes: bool,
    pid_to_stream: HashMap<u16, u8>,
    psi_reasm: SectionReassemblerMap,
    probe_info: ProbeInfo,
    pes_reasm: PesReassemblerMap,
}

impl View for Probe {
    type V = ProbeState;

    closed spec fn view(&self) -> ProbeState {
        ProbeState {
            in_buff: held_bytes(self.in_buff),
            is_sync: self.is_sync,
            is_pat: self.is_pat,
            is_sdt: self.is_sdt,
            is_pmt: self.is_pmt,
            is_pes: self.is_pes,
            types: self.pid_to_stream@,
            pending: self.psi_reasm@,
            programs: self.probe_info@,
            gathered: self.pes_reasm@,
        }
    }
}

impl Probe {
    pub closed spec fn wf(&self) -> bool {
        self.psi_reasm.wf()
    }

    pub fn new() -> (r: Self)
        ensures
            r.wf(),
            r@ == probe_start(),
    {
        let r = Probe {
            in_buff: buffer_new(1_048_576),
            is_sync: false,
            is_pat: false,
            is_sdt: false,
            is_pmt: false,
            is_pes: false,
            pid_to_stream: HashMap::new(),
            psi_reasm: SectionReassemblerMap::new(),
            probe_info: ProbeInfo { probe_programs: Vec::new() },
            pes_reasm: PesReassemblerMap::new(),
        };
        assert(r.probe_info@ =~= Seq::<ProgramModel>::empty());
        assert(r@ =~= probe_start());
        r
    }

    /// Takes in a chunk of the stream, and says whether there is enough of it.
    pub fn write(&mut self, chunk: &Bytes) -> (r: bool)
        requires
            old(self).wf(),
            old(self)@.in_buff.len() + shared_bytes(*chunk).len() <= usize::MAX / 8,
        ensures
            final(self).wf(),
            final(self)@ == probe_written(old(self)@, shared_bytes(*chunk)),
            r == (final(self)@.in_buff.len() >= PROBE_BUFFER_SIZE),
    {
        buffer_extend(&mut self.in_buff, shared_slice(chunk));
        if !self.is_sync {
            self.is_sync = PacketHandler::sync_buffer(&mut self.in_buff);
        }
        buffer_len(&self.in_buff) >= PROBE_BUFFER_SIZE
    }

    fn pat_packet(&mut self, pkt: &[u8])
        requires
            old(self).wf(),
        ensures
            final(self).wf(),
            final(self)@ == pat_probed(old(self)@, pkt@),
    {
        if let Some(section) = self.psi_reasm.push(pkt) {
            if section.len() >= 4 {
                let pats = analyze_pat(section.as_slice());
                let mut programs: Vec<ProbeProgram> = Vec::new();
                let mut i: usize = 0;
                while i < pats.len()
                    invariant
                        i <= pats@.len(),
                        programs@.len() == i,
                        forall|j: int|
                            0 <= j < i ==> (#[trigger] programs@[j])@ == (ProgramModel {
                                pat: pats@[j],
                                pmt: None,
                                sdt: None,
                            }),
                    decreases pats@.len() - i,
                {
                    programs.push(ProbeProgram::new(pats[i]));
                    i = i + 1;
                }
                self.probe_info = ProbeInfo { probe_programs: programs };
                self.is_pat = true;
                assert(self.probe_info@ =~= pat_programs(section@).map_values(
                    |pat: PatInfo| ProgramModel { pat, pmt: None, sdt: None },
                ));
            }
        }
    }

    fn sdt_packet(&mut self, pkt: &[u8])
        requires
            old(self).wf(),
        ensures
            final(self).wf(),
            final(self)@ == sdt_probed(old(self)@, pkt@),
    {
        if let Some(section) = self.psi_reasm.push(pkt) {
            if let Some(services) = try_analyze_sdt(section.as_slice()) {
                self.probe_info.note_services(services);
                self.is_sdt = true;
            }
        }
    }

    fn pmt_packet(&mut self, pkt: &[u8])
        requires
            old(self).wf(),
            pkt@.len() == 188,
        ensures
            final(self).wf(),
            final(self)@ == pmt_probed(old(self)@, pkt@),
    {
        let pid = pkt_pid(pkt);
        if let Some(section) = self.psi_reasm.push(pkt) {
            if let Some(pmt) = try_analyze_pmt(section.as_slice()) {
                note_types(&mut self.pid_to_stream, &pmt.streams);
                self.probe_info.note_map(pid, pmt);
            }
        }
    }

    fn pes_packet(&mut self, pkt: &[u8])
        requires
            old(self).wf(),
            pkt@.len() == 188,
            forall|pid: u16| #[trigger]
                old(self)@.gathered.contains_key(pid) ==> old(self)@.gathered[pid].bytes.len()
                    <= usize::MAX / 16,
        ensures
            final(self).wf(),
            final(self)@ == pes_probed(old(self)@, pkt@),
    {
        let pid = pkt_pid(pkt);
        assert forall|p: u16| #[trigger]
            self.pes_reasm@.contains_key(p) implies self.pes_reasm@[p].bytes.len() <= usize::MAX
            / 16 by {
            assert(self@.gathered.contains_key(p));
        }
        if let Some(pes) = self.pes_reasm.push(pkt, &self.pid_to_stream) {
            if let Some(es) = pes.es {
                let words = es.description();
                if self.probe_info.describe(pid, words) {
                    self.pid_to_stream.remove(&pid);
                }
            }
        }
        if self.pid_to_stream.len() == 0 {
            self.is_pes = true;
        }
        proof {
            assert(self.pid_to_stream@.dom().len() == 0 <==> self.pid_to_stream@ =~= Map::<
                u16,
                u8,
            >::empty()) by {
                if self.pid_to_stream@.dom().len() == 0 {
                    assert(self.pid_to_stream@.dom() =~= Set::<u16>::empty());
                }
            }
        }
    }
}

/// Adds the streams of a map to those that are to be looked at.
fn note_types(types: &mut HashMap<u16, u8>, streams: &Vec<StreamInfo>)
    ensures
        final(types)@ == with_types(old(types)@, streams_view(streams@)),
{
    let mut i: usize = 0;
    let ghost all = streams_view(streams@);
    assert(all.take(0) =~= Seq::<StreamModel>::empty());
    while i < streams.len()
        invariant
            i <= streams@.len(),
            all == streams_view(streams@),
            types@ == with_types(old(types)@, all.take(i as int)),
        decreases streams@.len() - i,
    {
        let t: u8 = streams[i].stream_type;
        assert(all.take(i + 1).drop_last() =~= all.take(i as int));
        assert(all.take(i + 1).last() == streams@[i as int]@);
        if t == 2 || t == 3 || t == 4 || t == 15 || t == 27 {
            types.insert(streams[i].pid, t);
        }
        i = i + 1;
    }
    assert(all.take(all.len() as int) =~= all);
}

impl ProbeInfo {
    /// Notes services at the programs that they belong to.
    fn note_services(&mut self, services: Vec<SdtInfo>)
        ensures
            final(self)@ == with_services(old(self)@, services_view(services@)),
    {
        let ghost all = services_view(services@);
        let mut left = services;
        assert(services_view(left@) =~= all);
        while left.len() > 0
            invariant
                with_services(self@, services_view(left@)) == with_services(old(self)@, all),
            decreases left@.len(),
        {
            let ghost before = left@;
            let service = left.remove(0);
            assert(services_view(before).drop_first() =~= services_view(left@));
            assert(services_view(before)[0] == service@);
            self.note_service(service);
        }
    }

    fn note_service(&mut self, service: SdtInfo)
        ensures
            final(self)@ == with_service(old(self)@, service@),
    {
        let mut i: usize = 0;
        while i < self.probe_programs.len()
            invariant
                self == old(self),
                i <= self.probe_programs@.len(),
                program_with_number(self@, service@.service_id, i as int) == program_with_number(
                    self@,
                    service@.service_id,
                    0,
                ),
            decreases self.probe_programs@.len() - i,
        {
            assert(self@[i as int] == self.probe_programs@[i as int]@);
            if self.probe_programs[i].pat.prog_num == service.service_id {
                let ghost before = self@;
                self.probe_programs[i].set_sdt(service);
                assert(self@ =~= with_service(before, service@));
                return ;
            }
            i = i + 1;
        }
    }

    fn note_map(&mut self, pid: u16, pmt: PmtInfo)
        ensures
            final(self)@ == match program_with_map(old(self)@, pid, 0) {
                Some(i) => old(self)@.update(
                    i,
                    ProgramModel { pmt: Some(pmt@), ..old(self)@[i] },
                ),
                None => old(self)@,
            },
    {
        let mut i: usize = 0;
        while i < self.probe_programs.len()
            invariant
                self == old(self),
                i <= self.probe_programs@.len(),
                program_with_map(self@, pid, i as int) == program_with_map(self@, pid, 0),
            decreases self.probe_programs@.len() - i,
        {
            assert(self@[i as int] == self.probe_programs@[i as int]@);
            if self.probe_programs[i].pat.pmt_pid == pid {
                let ghost before = self@;
                self.probe_programs[i].set_pmt(pmt);
                assert(self@ =~= before.update(
                    i as int,
                    ProgramModel { pmt: Some(pmt@), ..before[i as int] },
                ));
                return ;
            }
            i = i + 1;
        }
    }

    /// The first elementary stream with a packet identifier.
    fn find_stream(&self, pid: u16) -> (r: Option<(usize, usize)>)
        ensures
            r is Some == stream_of_programs(self@, pid, 0) is Some,
            r matches Some((i, j)) ==> stream_of_programs(self@, pid, 0) == Some(
                (i as int, j as int),
            ) && i < self@.len() && self@[i as int].pmt is Some && j
                < (self@[i as int].pmt->0).streams.len(),
    {
        let mut i: usize = 0;
        while i < self.probe_programs.len()
            invariant
                i <= self.probe_programs@.len(),
                stream_of_programs(self@, pid, i as int) == stream_of_programs(self@, pid, 0),
            decreases self.probe_programs@.len() - i,
        {
            assert(self@[i as int] == self.probe_programs@[i as int]@);
            if let Some(pmt) = &self.probe_programs[i].pmt {
                let mut j: usize = 0;
                while j < pmt.streams.len()
                    invariant
                        i < self.probe_programs@.len(),
                        self@[i as int] == self.probe_programs@[i as int]@,
                        self.probe_programs@[i as int].pmt == Some(*pmt),
                        j <= pmt.streams@.len(),
                        stream_with_pid(pmt@.streams, pid, j as int) == stream_with_pid(
                            pmt@.streams,
                            pid,
                            0,
                        ),
                        stream_of_programs(self@, pid, i as int) == stream_of_programs(
                            self@,
                            pid,
                            0,
                        ),
                    decreases pmt.streams@.len() - j,
                {
                    assert(pmt@.streams[j as int] == pmt.streams@[j as int]@);
                    if pmt.streams[j].pid == pid {
                        return Some((i, j));
                    }
                    j = j + 1;
                }
            }
            i = i + 1;
        }
        None
    }

    /// Puts words to the first elementary stream with a packet identifier, and
    /// says whether there is one.
    fn describe(&mut self, pid: u16, words: String) -> (r: bool)
        ensures
            r == (stream_of_programs(old(self)@, pid, 0) is Some),
            match stream_of_programs(old(self)@, pid, 0) {
                Some((i, j)) => final(self)@ == with_description(old(self)@, i, j, words@),
                None => final(self)@ == old(self)@,
            },
    {
        let (i, j): (usize, usize) = match self.find_stream(pid) {
            Some(at) => at,
            None => return false,
        };
        let ghost before = self@;
        assert(before[i as int] == self.probe_programs@[i as int]@);
        if let Some(pmt) = &mut self.probe_programs[i].pmt {
            let ghost streams = pmt@.streams;
            pmt.streams[j].description = words;
            assert(streams_view(pmt.streams@) =~= streams.update(
                j as int,
                StreamModel { description: words@, ..streams[j as int] },
            ));
        }
        assert(self@ =~= with_description(before, i as int, j as int, words@));
        true
    }

    /// The packet identifier of the first map that was not found yet.
    fn missing_map(&self) -> (r: Option<u16>)
        ensures
            r == match program_without_map(self@, 0) {
                Some(i) => Some(self@[i].pat.pmt_pid),
                None => None,
            },
    {
        let mut i: usize = 0;
        while i < self.probe_programs.len()
            invariant
                i <= self.probe_programs@.len(),
                program_without_map(self@, i as int) == program_without_map(self@, 0),
            decreases self.probe_programs@.len() - i,
        {
            assert(self@[i as int] == self.probe_programs@[i as int]@);
            if self.probe_programs[i].pmt.is_none() {
                return Some(self.probe_programs[i].pat.pmt_pid);
            }
            i = i + 1;
        }
        None
    }
}

/// What is gathered of every stream is no longer than `n`.
pub open spec fn gathered_below(s: ProbeState, n: int) -> bool {
    forall|pid: u16| #[trigger]
        s.gathered.contains_key(pid) ==> s.gathered[pid].bytes.len() <= n
}

/// A packet changes the input not at all, and adds at most its own length to
/// what is gathered.
proof fn lemma_packet_probed(s: ProbeState, pkt: Seq<u8>, n: int)
    requires
        gathered_below(s, n),
        pkt.len() == 188,
        n >= 0,
    ensures
        packet_probed(s, pkt).in_buff == s.in_buff,
        gathered_below(packet_probed(s, pkt), n + 188),
{
    let pid = pid_of(pkt) as u16;
    let t = packet_probed(s, pkt);
    assert forall|p: u16| #[trigger] t.gathered.contains_key(p) implies t.gathered[p].bytes.len()
        <= n + 188 by {
        assert(p != pid && s.gathered.contains_key(p) ==> s.gathered[p].bytes.len() <= n);
        assert(s.gathered.contains_key(pid) ==> s.gathered[pid].bytes.len() <= n);
        assert(crate::pes::parser::payload_of(pkt).len() <= 188);
    }
}

impl Probe {
    fn packet(&mut self, pkt: &[u8])
        requires
            old(self).wf(),
            pkt@.len() == 188,
            gathered_below(old(self)@, (usize::MAX / 16) as int),
        ensures
            final(self).wf(),
            final(self)@ == packet_probed(old(self)@, pkt@),
    {
        let pid = pkt_pid(pkt);
        if pid == 0x1FFF {
            return ;
        }
        if pid == 0x0000 && !self.is_pat {
            self.pat_packet(pkt);
            return ;
        }
        if pid == 0x0011 && self.is_pat && !self.is_sdt {
            self.sdt_packet(pkt);
            return ;
        }
        if self.is_pat && !self.is_pmt {
            match self.probe_info.missing_map() {
                Some(map_pid) => {
                    if map_pid == pid {
                        self.pmt_packet(pkt);
                        return ;
                    }
                },
                None => {
                    self.is_pmt = true;
                },
            }
        }
        if self.is_pmt && !self.is_pes {
            self.pes_packet(pkt);
        }
    }

    /// Looks at what was taken in. Nothing is found before the stream is
    /// synchronised, where it loses its synchronisation, or without a list of
    /// programs.
    pub fn process(self) -> (r: Option<ProbeInfo>)
        requires
            self.wf(),
            self@.gathered == Map::<u16, PesPending>::empty(),
            self@.in_buff.len() <= usize::MAX / 16,
        ensures
            r is Some == probe_result(self@) is Some,
            r matches Some(info) ==> probe_result(self@) == Some(info@),
    {
        let mut p = self;
        if !p.is_sync {
            return None;
        }
        let len: usize = buffer_len(&p.in_buff);
        let mut pos: usize = 0;
        let ghost whole = probed_from(p@, 0);
        while len - pos >= TS_PACKET_SIZE
            invariant
                p.wf(),
                len == p@.in_buff.len(),
                len <= usize::MAX / 16,
                pos <= len,
                gathered_below(p@, pos as int),
                probed_from(p@, pos as int) == whole,
                whole == probed_from(self@, 0),
                self@.is_sync,
            decreases len - pos,
        {
            let pkt = packet_at(buffer_slice(&p.in_buff), pos);
            if pkt[0] != TS_SYNC_BYTE {
                return None;
            }
            let ghost before = p@;
            proof {
                lemma_packet_probed(before, pkt@, pos as int);
            }
            p.packet(pkt.as_slice());
            assert(p@ =~= ProbeState { in_buff: before.in_buff, ..packet_probed(before, pkt@) });
            pos = pos + TS_PACKET_SIZE;
        }
        if p.is_pat {
            Some(p.probe_info)
        } else {
            None
        }
    }
}

/// The answer to a probe of a stream.
#[derive(Debug)]
pub struct ProbeResult {
    pub id: u32,
    pub timestamp: UtcTime,
    pub status: bool,
    pub error_msg: String,
    pub programs: Vec<ProbeProgram>,
}

/// A probe under way: chunks come in until there is enough of them, the stream
/// ends or time is up.
pub struct ProbeSession {
    pub probe: Probe,
    pub result: ProbeResult,
}

impl ProbeSession {
    /// Nothing is gathered before the probe is looked at, and the input leaves room
    /// for more in a buffer.
    pub open spec fn wf(&self) -> bool {
        &&& self.probe.wf()
        &&& self.probe@.gathered == Map::<u16, PesPending>::empty()
        &&& self.probe@.in_buff.len() <= usize::MAX / 16
    }

    pub fn new(stream_id: u32, now: UtcTime) -> (r: Self)
        ensures
            r.wf(),
            r.probe@ == probe_start(),
            r.result.id == stream_id,
            r.result.timestamp == now,
            r.result.status,
            r.result.error_msg@ == Seq::<char>::empty(),
            r.result.programs@.len() == 0,
    {
        ProbeSession {
            probe: Probe::new(),
            result: ProbeResult {
                id: stream_id,
                timestamp: now,
                status: true,
                error_msg: String::new(),
                programs: Vec::new(),
            },
        }
    }

    /// Takes in a chunk of the stream, and says whether there is enough of it.
    pub fn on_chunk(&mut self, chunk: &Bytes) -> (r: bool)
        requires
            old(self).wf(),
            old(self).probe@.in_buff.len() + shared_bytes(*chunk).len() <= usize::MAX / 16,
        ensures
            final(self).wf(),
            final(self).probe@ == probe_written(old(self).probe@, shared_bytes(*chunk)),
            final(self).result == old(self).result,
            r == (final(self).probe@.in_buff.len() >= PROBE_BUFFER_SIZE),
    {
        proof {
            lemma_written_len(self.probe@, shared_bytes(*chunk));
        }
        self.probe.write(chunk)
    }

    /// The stream ended.
    pub fn on_closed(&mut self, reason: &str)
        requires
            old(self).wf(),
        ensures
            final(self).wf(),
            final(self).probe == old(self).probe,
            !final(self).result.status,
            final(self).result.error_msg@ == "Received failed:"@ + reason@,
            final(self).result.id == old(self).result.id,
            final(self).result.timestamp == old(self).result.timestamp,
            final(self).result.programs == old(self).result.programs,
    {
        self.result.status = false;
        let mut msg = String::from_str("Received failed:");
        msg.append(reason);
        self.result.error_msg = msg;
    }

    /// The answer: the programs that were found, or that nothing was.
    pub fn finish(self) -> (r: ProbeResult)
        requires
            self.wf(),
        ensures
            r.id == self.result.id,
            r.timestamp == self.result.timestamp,
            match probe_result(self.probe@) {
                Some(programs) => r.status == self.result.status && r.error_msg
                    == self.result.error_msg && r.programs@.map_values(|p: ProbeProgram| p@)
                    == programs,
                None => !r.status && r.error_msg@ == "Probe process failed"@ && r.programs
                    == self.result.programs,
            },
    {
        let mut result = self.result;
        match self.probe.process() {
            Some(info) => {
                result.programs = info.probe_programs;
            },
            None => {
                result.status = false;
                result.error_msg = String::from_str("Probe process failed");
            },
        }
        result
    }
}

proof fn lemma_written_len(s: ProbeState, chunk: Seq<u8>)
    ensures
        probe_written(s, chunk).in_buff.len() <= s.in_buff.len() + chunk.len(),
{
    crate::mux::handler::lemma_synced_len(s.in_buff + chunk);
}

} // verus!
