//! What holds of a probe: which tables and streams it takes what it tells from.

use crate::packet::pid_of;
use crate::probe::{
    known_type, packet_probed, pes_probed, pmt_probed, probe_result, probe_start, probe_written,
    probed_from, program_with_map, program_with_number,
    program_without_map, stream_of_programs, stream_with_pid,
    with_service, with_services, with_types, ProbeState, ProgramModel,
};
use crate::psi::pat::pat_programs;
use crate::psi::pmt::{pmt_of, PmtModel, StreamModel};
use crate::psi::sdt::SdtModel;
use crate::psi::section::map_reassembled;
use vstd::prelude::*;

verus! {

// ---- Tables ----

/// Before the list of programs nothing else is looked at, and once it is there it is not
/// read again.
pub proof fn law_list_comes_first(s: ProbeState, pkt: Seq<u8>)
    requires
        !s.is_pat,
        !s.is_pmt,
        s.programs.len() == 0,
    ensures
        ({
            let t = packet_probed(s, pkt);
            &&& (pkt[1] as int % 32) * 256 + pkt[2] != 0 ==> t == s
            &&& !t.is_pat ==> t.programs == s.programs
            &&& !t.is_sdt || s.is_sdt
            &&& !t.is_pmt && t.types == s.types
        }),
{
}

/// The programs are those of the list, in its order, and nothing is known of them yet.
pub proof fn law_programs_are_listed(s: ProbeState, pkt: Seq<u8>, section: Seq<u8>)
    requires
        !s.is_pat,
        map_reassembled(s.pending, pkt).1 == Some(section),
        section.len() >= 4,
        (pkt[1] as int % 32) * 256 + pkt[2] == 0,
    ensures
        ({
            let t = packet_probed(s, pkt);
            let listed = pat_programs(section);
            &&& t.is_pat
            &&& t.programs.len() == listed.len()
            &&& forall|i: int|
                0 <= i < listed.len() ==> (#[trigger] t.programs[i]).pat == listed[i]
                    && t.programs[i].pmt is None && t.programs[i].sdt is None
            &&& t.is_sdt == s.is_sdt && t.is_pmt == s.is_pmt && t.types == s.types
        }),
{
}

/// Whether only what is known of the services differs between two lists of programs.
pub open spec fn same_but_service(a: Seq<ProgramModel>, b: Seq<ProgramModel>) -> bool {
    &&& a.len() == b.len()
    &&& forall|i: int|
        0 <= i < a.len() ==> (#[trigger] a[i]).pat == b[i].pat && a[i].pmt == b[i].pmt
}

proof fn lemma_number(programs: Seq<ProgramModel>, number: u16, i: int)
    requires
        0 <= i,
    ensures
        match program_with_number(programs, number, i) {
            Some(k) => i <= k < programs.len() && programs[k].pat.prog_num == number,
            None => forall|k: int|
                i <= k < programs.len() ==> (#[trigger] programs[k]).pat.prog_num != number,
        },
    decreases programs.len() - i,
{
    if i < programs.len() && programs[i].pat.prog_num != number {
        lemma_number(programs, number, i + 1);
    }
}

/// A service is noted at the program whose number it has, where there is one, and at no
/// other.
pub proof fn law_service_is_noted(programs: Seq<ProgramModel>, s: SdtModel)
    ensures
        ({
            let t = with_service(programs, s);
            &&& same_but_service(t, programs)
            &&& forall|i: int|
                0 <= i < t.len() && (#[trigger] t[i]).pat.prog_num != s.service_id ==> t[i].sdt
                    == programs[i].sdt
            &&& (exists|i: int|
                0 <= i < programs.len() && (#[trigger] programs[i]).pat.prog_num == s.service_id)
                ==> exists|i: int|
                0 <= i < t.len() && (#[trigger] t[i]).pat.prog_num == s.service_id && t[i].sdt
                    == Some(s)
        }),
{
    lemma_number(programs, s.service_id, 0);
    let t = with_service(programs, s);
    if let Some(i) = program_with_number(programs, s.service_id, 0) {
        assert(t[i].pat.prog_num == s.service_id && t[i].sdt == Some(s));
    }
}

/// Where no number occurs twice among the programs nor among the services, each program is
/// told with the service that has its number, and a program without one keeps what it had.
pub proof fn law_services_are_noted(programs: Seq<ProgramModel>, services: Seq<SdtModel>)
    requires
        forall|i: int, j: int|
            0 <= i < j < programs.len() ==> (#[trigger] programs[i]).pat.prog_num != (
            #[trigger] programs[j]).pat.prog_num,
        forall|i: int, j: int|
            0 <= i < j < services.len() ==> (#[trigger] services[i]).service_id != (
            #[trigger] services[j]).service_id,
    ensures
        ({
            let t = with_services(programs, services);
            &&& same_but_service(t, programs)
            &&& forall|i: int, k: int|
                0 <= i < t.len() && 0 <= k < services.len() && (#[trigger] t[i]).pat.prog_num == (
                #[trigger] services[k]).service_id ==> t[i].sdt == Some(services[k])
            &&& forall|i: int|
                0 <= i < t.len() && (forall|k: int|
                    0 <= k < services.len() ==> (#[trigger] services[k]).service_id
                        != programs[i].pat.prog_num) ==> (#[trigger] t[i]).sdt == programs[i].sdt
        }),
    decreases services.len(),
{
    if services.len() > 0 {
        let first = services[0];
        let rest = services.drop_first();
        let p = with_service(programs, first);
        law_service_is_noted(programs, first);
        assert forall|i: int, j: int| 0 <= i < j < p.len() implies (
        #[trigger] p[i]).pat.prog_num != (#[trigger] p[j]).pat.prog_num by {
            assert(programs[i].pat.prog_num != programs[j].pat.prog_num);
        }
        assert forall|i: int, j: int| 0 <= i < j < rest.len() implies (
        #[trigger] rest[i]).service_id != (#[trigger] rest[j]).service_id by {
            assert(services[i + 1].service_id != services[j + 1].service_id);
        }
        law_services_are_noted(p, rest);
        let t = with_services(programs, services);
        assert forall|i: int, k: int|
            0 <= i < t.len() && 0 <= k < services.len() && (#[trigger] t[i]).pat.prog_num == (
            #[trigger] services[k]).service_id implies t[i].sdt == Some(services[k]) by {
            if k > 0 {
                assert(rest[k - 1] == services[k]);
            } else {
                assert forall|m: int| 0 <= m < rest.len() implies (
                #[trigger] rest[m]).service_id != p[i].pat.prog_num by {
                    assert(services[0].service_id != services[m + 1].service_id);
                }
                let n = choose|n: int|
                    0 <= n < p.len() && (#[trigger] p[n]).pat.prog_num == first.service_id
                        && p[n].sdt == Some(first);
                assert(programs[i].pat.prog_num == first.service_id);
                assert(exists|m: int|
                    0 <= m < programs.len() && (#[trigger] programs[m]).pat.prog_num
                        == first.service_id);
                assert(p[i].pat.prog_num == p[n].pat.prog_num);
                if i != n {
                    let low = if i < n {
                        i
                    } else {
                        n
                    };
                    let high = if i < n {
                        n
                    } else {
                        i
                    };
                    assert(p[low].pat.prog_num != p[high].pat.prog_num);
                }
            }
        }
        assert forall|i: int|
            0 <= i < t.len() && (forall|k: int|
                0 <= k < services.len() ==> (#[trigger] services[k]).service_id
                    != programs[i].pat.prog_num) implies (#[trigger] t[i]).sdt
            == programs[i].sdt by {
            assert forall|k: int| 0 <= k < rest.len() implies (#[trigger] rest[k]).service_id
                != p[i].pat.prog_num by {
                assert(services[k + 1].service_id != programs[i].pat.prog_num);
            }
            assert(services[0].service_id != programs[i].pat.prog_num);
            assert(p[i].sdt == programs[i].sdt);
        }
    }
}

proof fn lemma_map(programs: Seq<ProgramModel>, pid: u16, i: int)
    requires
        0 <= i,
    ensures
        match program_with_map(programs, pid, i) {
            Some(k) => i <= k < programs.len() && programs[k].pat.pmt_pid == pid && forall|m: int|
                i <= m < k ==> (#[trigger] programs[m]).pat.pmt_pid != pid,
            None => forall|k: int|
                i <= k < programs.len() ==> (#[trigger] programs[k]).pat.pmt_pid != pid,
        },
    decreases programs.len() - i,
{
    if i < programs.len() && programs[i].pat.pmt_pid != pid {
        lemma_map(programs, pid, i + 1);
    }
}

/// A map is noted at the first program that has it, and at no other; nothing else of the
/// programs changes. Its streams of a known type are looked at from then on.
pub proof fn law_map_is_noted(s: ProbeState, pkt: Seq<u8>, section: Seq<u8>, pmt: PmtModel, k: int)
    requires
        map_reassembled(s.pending, pkt).1 == Some(section),
        pmt_of(section) == Some(pmt),
        0 <= k < s.programs.len(),
        s.programs[k].pat.pmt_pid == (pkt[1] as int % 32) * 256 + pkt[2],
        forall|m: int|
            0 <= m < k ==> (#[trigger] s.programs[m]).pat.pmt_pid != s.programs[k].pat.pmt_pid,
    ensures
        ({
            let t = pmt_probed(s, pkt);
            &&& t.programs == s.programs.update(
                k,
                ProgramModel { pat: s.programs[k].pat, pmt: Some(pmt), sdt: s.programs[k].sdt },
            )
            &&& t.types == with_types(s.types, pmt.streams)
        }),
{
    lemma_map(s.programs, pid_of(pkt) as u16, 0);
}

/// Of a map those streams are looked at whose type is known: MPEG-2 video, MPEG audio of
/// both kinds, AAC and H.264. Streams that were looked at before still are.
pub proof fn law_known_streams_are_looked_at(types: Map<u16, u8>, streams: Seq<StreamModel>)
    ensures
        ({
            let t = with_types(types, streams);
            &&& forall|pid: u16| #[trigger]
                t.contains_key(pid) <==> types.contains_key(pid) || exists|i: int|
                    0 <= i < streams.len() && (#[trigger] streams[i]).pid == pid && is_known(
                        streams[i].stream_type,
                    )
            &&& forall|pid: u16| #[trigger]
                t.contains_key(pid) ==> t[pid] == types[pid] && types.contains_key(pid) || exists|
                    i: int,
                |
                    0 <= i < streams.len() && (#[trigger] streams[i]).pid == pid && t[pid]
                        == streams[i].stream_type && is_known(streams[i].stream_type)
        }),
    decreases streams.len(),
{
    if streams.len() > 0 {
        let head = streams.drop_last();
        let last = streams.last();
        law_known_streams_are_looked_at(types, head);
        let rest = with_types(types, head);
        let t = with_types(types, streams);
        assert(last == streams[streams.len() - 1]);
        assert forall|pid: u16| #[trigger]
            t.contains_key(pid) <==> types.contains_key(pid) || exists|i: int|
                0 <= i < streams.len() && (#[trigger] streams[i]).pid == pid && is_known(
                    streams[i].stream_type,
                ) by {
            lemma_stream_in(streams, pid);
        }
        assert forall|pid: u16| #[trigger]
            t.contains_key(pid) implies t[pid] == types[pid] && types.contains_key(pid) || exists|
            i: int,
        |
            0 <= i < streams.len() && (#[trigger] streams[i]).pid == pid && t[pid]
                == streams[i].stream_type && is_known(streams[i].stream_type) by {
            if !(known_type(last.stream_type) && last.pid == pid) {
                assert(rest.contains_key(pid));
                if !(rest[pid] == types[pid] && types.contains_key(pid)) {
                    let i = choose|i: int|
                        0 <= i < head.len() && (#[trigger] head[i]).pid == pid && rest[pid]
                            == head[i].stream_type && is_known(head[i].stream_type);
                    assert(streams[i] == head[i]);
                }
            }
        }
    }
}

/// The types of streams of which something can be found out.
pub open spec fn is_known(stream_type: u8) -> bool {
    stream_type == 2 || stream_type == 3 || stream_type == 4 || stream_type == 15 || stream_type
        == 27
}

proof fn lemma_stream_in(streams: Seq<StreamModel>, pid: u16)
    requires
        streams.len() > 0,
    ensures
        (exists|i: int|
            0 <= i < streams.len() && (#[trigger] streams[i]).pid == pid && is_known(
                streams[i].stream_type,
            )) <==> (streams.last().pid == pid && is_known(streams.last().stream_type)) || exists|
            i: int,
        |
            0 <= i < streams.drop_last().len() && (#[trigger] streams.drop_last()[i]).pid == pid
                && is_known(streams.drop_last()[i].stream_type),
{
    let head = streams.drop_last();
    if exists|i: int|
        0 <= i < streams.len() && (#[trigger] streams[i]).pid == pid && is_known(
            streams[i].stream_type,
        ) {
        let i = choose|i: int|
            0 <= i < streams.len() && (#[trigger] streams[i]).pid == pid && is_known(
                streams[i].stream_type,
            );
        if i < streams.len() - 1 {
            assert(head[i] == streams[i]);
        }
    }
    if exists|i: int|
        0 <= i < head.len() && (#[trigger] head[i]).pid == pid && is_known(head[i].stream_type) {
        let i = choose|i: int|
            0 <= i < head.len() && (#[trigger] head[i]).pid == pid && is_known(
                head[i].stream_type,
            );
        assert(streams[i] == head[i]);
    }
    assert(streams[streams.len() - 1] == streams.last());
}

// ---- Streams ----

proof fn lemma_stream_with_pid(streams: Seq<StreamModel>, pid: u16, j: int)
    requires
        0 <= j,
    ensures
        match stream_with_pid(streams, pid, j) {
            Some(k) => j <= k < streams.len() && streams[k].pid == pid,
            None => true,
        },
    decreases streams.len() - j,
{
    if j < streams.len() && streams[j].pid != pid {
        lemma_stream_with_pid(streams, pid, j + 1);
    }
}

proof fn lemma_stream_of_programs(programs: Seq<ProgramModel>, pid: u16, i: int)
    requires
        0 <= i,
    ensures
        match stream_of_programs(programs, pid, i) {
            Some((k, j)) => i <= k < programs.len() && programs[k].pmt is Some && 0 <= j < (
            programs[k].pmt->0).streams.len() && (programs[k].pmt->0).streams[j].pid == pid,
            None => true,
        },
    decreases programs.len() - i,
{
    if i < programs.len() {
        if let Some(pmt) = programs[i].pmt {
            lemma_stream_with_pid(pmt.streams, pid, 0);
        }
        lemma_stream_of_programs(programs, pid, i + 1);
    }
}

/// Whether two programs are the same but for the words put to their streams of one
/// identifier.
pub open spec fn same_but_words(a: ProgramModel, b: ProgramModel, pid: u16) -> bool {
    &&& a.pat == b.pat && a.sdt == b.sdt
    &&& a.pmt is Some == b.pmt is Some
    &&& a.pmt matches Some(m) ==> m.pcr_pid == (b.pmt->0).pcr_pid && m.streams.len() == (
    b.pmt->0).streams.len() && forall|j: int|
        0 <= j < m.streams.len() ==> (#[trigger] m.streams[j]).pid == (b.pmt->0).streams[j].pid
            && m.streams[j].stream_type == (b.pmt->0).streams[j].stream_type && m.streams[j].lang
            == (b.pmt->0).streams[j].lang && (m.streams[j].pid != pid ==> m.streams[j].description
            == (b.pmt->0).streams[j].description)
}

/// A packet of a stream puts words to that stream at most, and to no other; nothing else of
/// the programs changes. A stream that has got words is not looked at again, all others
/// still are.
pub proof fn law_words_go_to_their_stream(s: ProbeState, pkt: Seq<u8>, pid: u16)
    requires
        pid == (pkt[1] as int % 32) * 256 + pkt[2],
    ensures
        ({
            let t = pes_probed(s, pkt);
            &&& t.programs.len() == s.programs.len()
            &&& forall|i: int|
                0 <= i < t.programs.len() ==> same_but_words(
                    #[trigger] t.programs[i],
                    s.programs[i],
                    pid,
                )
            &&& forall|other: u16|
                other != pid ==> #[trigger] t.types.contains_key(other) == s.types.contains_key(
                    other,
                )
            &&& t.types.contains_key(pid) ==> s.types.contains_key(pid) && t.programs == s.programs
            &&& t.is_pes == (s.is_pes || t.types =~= Map::<u16, u8>::empty())
        }),
{
    lemma_stream_of_programs(s.programs, pid, 0);
}

// ---- The result ----

/// Nothing is told before the stream is in step, and nothing without a list of programs; a
/// packet that does not begin as one spoils the result.
pub proof fn law_result_needs_programs(s: ProbeState)
    ensures
        !s.is_sync ==> probe_result(s) is None,
        s.is_sync && s.in_buff.len() < 188 ==> probe_result(s) == if s.is_pat {
            Some(s.programs)
        } else {
            None
        },
        s.is_sync && s.in_buff.len() >= 188 && s.in_buff[0] != 0x47 ==> probe_result(s) is None,
        probe_result(probe_start()) is None,
{
    reveal_with_fuel(probed_from, 2);
}

/// What comes in is added to what is there, once the stream is in step.
pub proof fn law_chunk_is_kept(s: ProbeState, chunk: Seq<u8>)
    requires
        s.is_sync,
    ensures
        probe_written(s, chunk) == (ProbeState { in_buff: s.in_buff + chunk, ..s }),
{
}

proof fn lemma_without_map(programs: Seq<ProgramModel>, i: int)
    requires
        0 <= i,
    ensures
        match program_without_map(programs, i) {
            Some(k) => i <= k < programs.len() && programs[k].pmt is None && forall|m: int|
                i <= m < k ==> (#[trigger] programs[m]).pmt is Some,
            None => forall|m: int| i <= m < programs.len() ==> (#[trigger] programs[m]).pmt is Some,
        },
    decreases programs.len() - i,
{
    if i < programs.len() && programs[i].pmt is Some {
        lemma_without_map(programs, i + 1);
    }
}

/// Once the services are noted no packet changes them, and no packet changes the list of the
/// programs.
pub proof fn law_services_stay(s: ProbeState, pkt: Seq<u8>)
    requires
        s.is_pat,
        s.is_sdt,
    ensures
        ({
            let t = packet_probed(s, pkt);
            &&& t.is_pat && t.is_sdt
            &&& t.programs.len() == s.programs.len()
            &&& forall|i: int|
                0 <= i < t.programs.len() ==> (#[trigger] t.programs[i]).sdt == s.programs[i].sdt
                    && t.programs[i].pat == s.programs[i].pat
        }),
{
    let pid = pid_of(pkt) as u16;
    lemma_stream_of_programs(s.programs, pid, 0);
    lemma_map(s.programs, pid, 0);
}

/// The maps are looked for in the order of the list: the next one is that of the first
/// program without one. A packet of another stream changes no map until all are there, and
/// then the streams are looked at.
pub proof fn law_maps_come_in_order(s: ProbeState, pkt: Seq<u8>, k: int)
    requires
        s.is_pat && s.is_sdt && !s.is_pmt && !s.is_pes,
        pid_of(pkt) != 0x1FFF,
        0 <= k <= s.programs.len(),
        forall|m: int| 0 <= m < k ==> (#[trigger] s.programs[m]).pmt is Some,
        k < s.programs.len() ==> s.programs[k].pmt is None,
    ensures
        ({
            let t = packet_probed(s, pkt);
            let awaited = k < s.programs.len() && s.programs[k].pat.pmt_pid == (pkt[1] as int % 32)
                * 256 + pkt[2];
            &&& awaited ==> t == pmt_probed(s, pkt)
            &&& k < s.programs.len() && !awaited ==> t == s
            &&& k == s.programs.len() ==> t == pes_probed(ProbeState { is_pmt: true, ..s }, pkt)
        }),
{
    lemma_without_map(s.programs, 0);
    if let Some(m) = program_without_map(s.programs, 0) {
        if m < k {
            assert(s.programs[m].pmt is Some);
        }
    }
}

} // verus!
