//! What holds of the tables of the packet handler: which programs, streams and names
//! the tables that are sent say, by the configuration and by what came in.

use crate::mux::input_laws::{lemma_counted, lemma_queued_flags};
use crate::mux::reports::MuxNote;
use crate::mux::state::{
    audio_size, chosen_name, kept_streams, program_of, service_with_id, start_checked, video_size,
    with_packet, with_pat_section, with_pmt_section, with_sdt_section, Cmd, MuxState,
};
use crate::packet::pid_of;
use crate::psi::crc::with_crc;
use crate::psi::header::{law_section_length, with_length12};
use crate::psi::pairs::occurrences;
use crate::psi::pat::{pat_entries, pat_programs, patched_pat};
use crate::psi::pmt::{
    ca_free, law_patched_pmt_is_checked, law_patched_pmt_is_free, law_patched_pmt_lists,
    lemma_same_map, len12, mapped_pid, passed_streams, patched_pmt, patched_pmt_head,
    patched_streams, pid13, pmt_of, stream_pairs, streams_ca_free, streams_of, PmtModel,
    StreamModel,
};
use crate::psi::sdt::{
    law_patched_sdt_describes, new_sdt_header, patched_sdt, sdt_services, SdtModel,
};
use crate::psi::section::{map_reassembled, part, part_header, section_packet, section_total};
use crate::text::{law_trimmed, trimmed, white_space};
use vstd::prelude::*;
use vstd::utf8::encode_utf8;

verus! {

/// Whether a packet carries a whole section and nothing before it.
pub open spec fn carries(pkt: Seq<u8>, pid: int, section: Seq<u8>) -> bool {
    &&& pkt.len() == 188
    &&& pkt[0] == 0x47
    &&& (pkt[1] as int % 32) * 256 + pkt[2] == pid
    &&& (pkt[1] / 64) % 2 == 1
    &&& (pkt[3] / 16) % 4 == 1
    &&& pkt[4] == 0
    &&& 3 <= section.len() <= 183
    &&& (section[1] as int % 16) * 256 + section[2] + 3 == section.len()
    &&& pkt.subrange(5, 5 + section.len() as int) == section
}

proof fn lemma_carried(pkt: Seq<u8>, pid: int, section: Seq<u8>, m: Map<u16, Seq<u8>>)
    requires
        carries(pkt, pid, section),
    ensures
        map_reassembled(m, pkt).1 == Some(section),
        pid_of(pkt) == pid,
{
    let rest = pkt.skip(5);
    assert(rest.take(section.len() as int) =~= section);
    assert(rest[1] == section[1] && rest[2] == section[2]) by {
        assert(pkt.subrange(5, 5 + section.len() as int)[1] == pkt[6]);
        assert(pkt.subrange(5, 5 + section.len() as int)[2] == pkt[7]);
    }
    assert(section_total(rest) == section.len());
}

pub proof fn lemma_packet_carries(section: Seq<u8>, pid: u16, cc: u8)
    requires
        pid < 0x2000,
        3 <= section.len() <= 183,
        section_total(section) == section.len(),
    ensures
        carries(section_packet(section, pid, cc, 0), pid as int, section),
        section_packet(section, pid, cc, 0)[3] % 16 == cc % 16,
{
    let p = section_packet(section, pid, cc, 0);
    let head = part_header(pid, cc, 0);
    assert(part(section, 0) =~= section);
    assert(head.len() == 5);
    assert(p.subrange(5, 5 + section.len() as int) =~= section);
    assert(p[0] == head[0] && p[1] == head[1] && p[2] == head[2] && p[3] == head[3] && p[4]
        == head[4]);
}

proof fn lemma_finished(body: Seq<u8>)
    requires
        3 <= body.len() <= 4094,
    ensures
        ({
            let t = with_crc(with_length12(body));
            &&& t.len() == body.len() + 4
            &&& section_total(t) == t.len()
            &&& t == with_crc(t.take(t.len() - 4))
            &&& t[0] == body[0]
            &&& forall|i: int| 3 <= i < body.len() ==> #[trigger] t[i] == body[i]
        }),
{
    law_section_length(body);
    let t = with_crc(with_length12(body));
    assert(t.take(t.len() - 4) =~= with_length12(body));
}

// ---- Programs ----

/// The list of programs that is sent names the configured program and its map, and no
/// other, whatever the list that came in names. Transport stream, version and numbers
/// of the section are those of the list that came in, and it ends with its checksum.
/// What came in is remembered as it was.
pub proof fn law_pat_lists_the_program(s: MuxState, pkt: Seq<u8>, section: Seq<u8>)
    requires
        carries(pkt, 0, section),
        section.len() >= 12,
        !s.pat_ready,
    ensures
        ({
            let t = with_packet(s, pkt);
            let program = s.output.programs@[0];
            &&& t.pat_ready
            &&& t.pat_info == pat_programs(section)
            &&& exists|sent: Seq<u8>|
                {
                    &&& #[trigger] carries(t.pat, 0, sent)
                    &&& sent.len() == 16
                    &&& sent[0] == section[0]
                    &&& sent.subrange(3, 8) == section.subrange(3, 8)
                    &&& sent[8] * 256 + sent[9] == program.program_id
                    &&& (sent[10] as int % 32) * 256 + sent[11] == program.pmt_pid % 0x2000
                    &&& sent == with_crc(sent.take(12))
                }
        }),
{
    let program = s.output.programs@[0];
    lemma_pat_step(s, pkt, section);
    lemma_pat_sent(
        section,
        program.program_id,
        program.pmt_pid,
        crate::psi::header::cached_counter(s.pat) as u8,
    );
    let sent = patched_pat(section, seq![(program.program_id, program.pmt_pid)]);
    assert(carries(with_packet(s, pkt).pat, 0, sent));
}

proof fn lemma_pat_step(s: MuxState, pkt: Seq<u8>, section: Seq<u8>)
    requires
        carries(pkt, 0, section),
        section.len() >= 8,
        !s.pat_ready,
    ensures
        ({
            let t = with_packet(s, pkt);
            &&& t.pat_ready
            &&& t.pat_info == pat_programs(section)
            &&& t.pat == section_packet(
                patched_pat(section, seq![(program_of(s).program_id, program_of(s).pmt_pid)]),
                0,
                crate::psi::header::cached_counter(s.pat) as u8,
                0,
            )
        }),
{
    reveal(with_packet);
    lemma_carried(pkt, 0, section, s.pending);
}

proof fn lemma_pat_sent(section: Seq<u8>, program_id: u16, pmt_pid: u16, cc: u8)
    requires
        section.len() >= 8,
    ensures
        ({
            let sent = patched_pat(section, seq![(program_id, pmt_pid)]);
            &&& carries(section_packet(sent, 0, cc, 0), 0, sent)
            &&& sent.len() == 16
            &&& sent[0] == section[0]
            &&& sent.subrange(3, 8) == section.subrange(3, 8)
            &&& sent[8] * 256 + sent[9] == program_id
            &&& (sent[10] as int % 32) * 256 + sent[11] == pmt_pid % 0x2000
            &&& sent == with_crc(sent.take(12))
        }),
{
    let mapping = seq![(program_id, pmt_pid)];
    let body = section.take(8) + pat_entries(mapping);
    assert(mapping.drop_first() =~= Seq::<(u16, u16)>::empty());
    assert(pat_entries(mapping.drop_first()) =~= Seq::<u8>::empty());
    assert(body.len() == 12);
    lemma_finished(body);
    let sent = patched_pat(section, mapping);
    lemma_packet_carries(sent, 0, cc);
    assert(sent.subrange(3, 8) =~= section.subrange(3, 8));
    assert(sent[8] == body[8] && sent[9] == body[9] && sent[10] == body[10] && sent[11]
        == body[11]);
}

// ---- Streams ----

/// The streams of a list that the program has.
pub open spec fn of_program(
    streams: Seq<StreamModel>,
    video: Seq<u16>,
    audio: Seq<u16>,
) -> Seq<StreamModel>
    decreases streams.len(),
{
    if streams.len() == 0 {
        Seq::empty()
    } else {
        let more = of_program(streams.drop_first(), video, audio);
        if video.contains(streams[0].pid) || audio.contains(streams[0].pid) {
            seq![streams[0]] + more
        } else {
            more
        }
    }
}

proof fn lemma_identity_mapping(mappings: Seq<(u16, u16)>, pid: u16)
    requires
        forall|i: int| 0 <= i < mappings.len() ==> (#[trigger] mappings[i]).0 == mappings[i].1,
    ensures
        mapped_pid(mappings, pid) == if exists|i: int|
            0 <= i < mappings.len() && (#[trigger] mappings[i]).0 == pid {
            Some(pid)
        } else {
            None
        },
    decreases mappings.len(),
{
    if mappings.len() > 0 && mappings[0].0 != pid {
        let rest = mappings.drop_first();
        assert forall|i: int| 0 <= i < rest.len() implies (#[trigger] rest[i]).0 == rest[i].1 by {
            assert(rest[i] == mappings[i + 1]);
        }
        lemma_identity_mapping(rest, pid);
        if exists|i: int| 0 <= i < mappings.len() && (#[trigger] mappings[i]).0 == pid {
            let i = choose|i: int| 0 <= i < mappings.len() && (#[trigger] mappings[i]).0 == pid;
            assert(rest[i - 1].0 == pid);
        }
        if exists|i: int| 0 <= i < rest.len() && (#[trigger] rest[i]).0 == pid {
            let i = choose|i: int| 0 <= i < rest.len() && (#[trigger] rest[i]).0 == pid;
            assert(mappings[i + 1].0 == pid);
        }
    }
}

proof fn lemma_kept_mapping(s: MuxState, pid: u16)
    ensures
        mapped_pid(kept_streams(program_of(s)), pid) == if program_of(s).video_pids@.contains(pid)
            || program_of(s).audio_pids@.contains(pid) {
            Some(pid)
        } else {
            None
        },
{
    let m = kept_streams(program_of(s));
    let v = program_of(s).video_pids@;
    let a = program_of(s).audio_pids@;
    assert forall|i: int| 0 <= i < m.len() implies (#[trigger] m[i]).0 == m[i].1 by {}
    lemma_identity_mapping(m, pid);
    if v.contains(pid) {
        let i = choose|i: int| 0 <= i < v.len() && v[i] == pid;
        assert(m[i].0 == pid);
    } else if a.contains(pid) {
        let i = choose|i: int| 0 <= i < a.len() && a[i] == pid;
        assert(m[v.len() + i].0 == pid);
    } else if exists|i: int| 0 <= i < m.len() && (#[trigger] m[i]).0 == pid {
        let i = choose|i: int| 0 <= i < m.len() && (#[trigger] m[i]).0 == pid;
        assert((v + a)[i] == pid);
        if i < v.len() {
            assert(v[i] == pid);
        } else {
            assert(a[i - v.len()] == pid);
        }
    }
}

proof fn lemma_passed_is_of_program(s: MuxState, rest: Seq<u8>, strip_ca: bool)
    requires
        streams_of(rest) is Some,
    ensures
        patched_streams(rest, kept_streams(program_of(s)), strip_ca) is Some,
        passed_streams(rest, kept_streams(program_of(s)), strip_ca) == of_program(
            streams_of(rest)->0,
            program_of(s).video_pids@,
            program_of(s).audio_pids@,
        ),
    decreases rest.len(),
{
    if rest.len() >= 9 {
        let end = 5 + len12(rest[3], rest[4]);
        let streams = streams_of(rest)->0;
        lemma_passed_is_of_program(s, rest.skip(end), strip_ca);
        lemma_kept_mapping(s, streams[0].pid);
        assert(streams.drop_first() =~= streams_of(rest.skip(end))->0);
    }
}

/// Whether the list of streams ends where the checksum begins.
pub open spec fn ends_at_checksum(rest: Seq<u8>) -> bool
    decreases rest.len(),
{
    rest.len() == 4 || (rest.len() >= 9 && 5 + len12(rest[3], rest[4]) <= rest.len()
        && ends_at_checksum(rest.skip(5 + len12(rest[3], rest[4]))))
}

/// The map that is sent lists the streams of the map that came in that the program is
/// configured with, video and audio, under their own identifiers, in their order, of
/// their types and languages, and names the same clock. Where the output is sent
/// unscrambled, no descriptor of conditional access is left in it. Table, program,
/// version and numbers of the section are those of the map that came in, and it ends
/// with its checksum. What came in is remembered as it was.
pub proof fn law_pmt_lists_the_streams(s: MuxState, pkt: Seq<u8>, section: Seq<u8>)
    requires
        carries(pkt, program_of(s).pmt_pid as int, section),
        program_of(s).pmt_pid != 0x0000 && program_of(s).pmt_pid != 0x0011
            && program_of(s).pmt_pid < 0x1FFF,
        !s.pmt_ready,
        section.len() >= 16,
        12 + len12(section[10], section[11]) <= section.len(),
        ends_at_checksum(section.skip(12 + len12(section[10], section[11]))),
    ensures
        pmt_of(section) is Some,
        ({
            let t = with_packet(s, pkt);
            let program = s.output.programs@[0];
            let info = pmt_of(section)->0;
            &&& t.pmt_ready
            &&& t.pmt_info == Some(info)
            &&& exists|sent: Seq<u8>|
                #[trigger] carries(t.pmt, program.pmt_pid as int, sent) && is_sent_map(
                    sent,
                    section,
                    info,
                    program.video_pids@,
                    program.audio_pids@,
                    s.output.ca_flag == 1,
                )
        }),
{
    let rest = section.skip(12 + len12(section[10], section[11]));
    lemma_ended_is_read(rest);
    let info = pmt_of(section)->0;
    let kept = kept_streams(program_of(s));
    let strip = s.output.ca_flag == 1;
    lemma_passed_is_of_program(s, rest, strip);
    let sent = patched_pmt(section, info.pcr_pid, kept, strip)->0;
    lemma_pmt_sent(s, section, crate::psi::header::cached_counter(s.pmt) as u8);
    lemma_pmt_step(s, pkt, section);
    assert(carries(with_packet(s, pkt).pmt, program_of(s).pmt_pid as int, sent));
}

/// Whether a map says what is to be sent of another one.
pub open spec fn is_sent_map(
    sent: Seq<u8>,
    section: Seq<u8>,
    info: PmtModel,
    video: Seq<u16>,
    audio: Seq<u16>,
    unscrambled: bool,
) -> bool {
    &&& pmt_of(sent) == Some(
        PmtModel { pcr_pid: info.pcr_pid, streams: of_program(info.streams, video, audio) },
    )
    &&& sent == with_crc(sent.take(sent.len() - 4))
    &&& sent[0] == section[0] && sent.subrange(3, 8) == section.subrange(3, 8)
    &&& unscrambled ==> {
        let at = 12 + len12(sent[10], sent[11]);
        ca_free(sent.subrange(12, at)) && streams_ca_free(sent.skip(at))
    }
}

proof fn lemma_ended_is_read(rest: Seq<u8>)
    requires
        ends_at_checksum(rest),
    ensures
        streams_of(rest) is Some,
    decreases rest.len(),
{
    if rest.len() >= 9 {
        lemma_ended_is_read(rest.skip(5 + len12(rest[3], rest[4])));
    }
}

proof fn lemma_pmt_step(s: MuxState, pkt: Seq<u8>, section: Seq<u8>)
    requires
        carries(pkt, program_of(s).pmt_pid as int, section),
        program_of(s).pmt_pid != 0x0000 && program_of(s).pmt_pid != 0x0011
            && program_of(s).pmt_pid < 0x1FFF,
        !s.pmt_ready,
        pmt_of(section) is Some,
        patched_pmt(
            section,
            (pmt_of(section)->0).pcr_pid,
            kept_streams(program_of(s)),
            s.output.ca_flag == 1,
        ) is Some,
    ensures
        ({
            let t = with_packet(s, pkt);
            &&& t.pmt_ready
            &&& t.pmt_info == pmt_of(section)
            &&& t.pmt == section_packet(
                patched_pmt(
                    section,
                    (pmt_of(section)->0).pcr_pid,
                    kept_streams(program_of(s)),
                    s.output.ca_flag == 1,
                )->0,
                program_of(s).pmt_pid,
                crate::psi::header::cached_counter(s.pmt) as u8,
                0,
            )
        }),
{
    reveal(with_packet);
    lemma_carried(pkt, program_of(s).pmt_pid as int, section, s.pending);
}

proof fn lemma_pmt_sent(s: MuxState, section: Seq<u8>, cc: u8)
    requires
        program_of(s).pmt_pid < 0x2000,
        16 <= section.len() <= 183,
        12 + len12(section[10], section[11]) <= section.len(),
        ends_at_checksum(section.skip(12 + len12(section[10], section[11]))),
        pmt_of(section) is Some,
    ensures
        ({
            let strip = s.output.ca_flag == 1;
            let kept = kept_streams(program_of(s));
            let info = pmt_of(section)->0;
            let sent = patched_pmt(section, info.pcr_pid, kept, strip)->0;
            let pid = program_of(s).pmt_pid;
            &&& patched_pmt(section, info.pcr_pid, kept, strip) is Some
            &&& carries(section_packet(sent, pid, cc, 0), pid as int, sent)
            &&& is_sent_map(
                sent,
                section,
                info,
                program_of(s).video_pids@,
                program_of(s).audio_pids@,
                strip,
            )
        }),
{
    let strip = s.output.ca_flag == 1;
    let info = pmt_of(section)->0;
    let kept = kept_streams(program_of(s));
    lemma_pmt_says(s, section);
    let sent = patched_pmt(section, info.pcr_pid, kept, strip)->0;
    if strip {
        law_patched_pmt_is_free(section, info.pcr_pid, kept);
    }
    assert(sent == with_crc(sent.take(sent.len() - 4))) by {
        law_patched_pmt_is_checked(section, info.pcr_pid, kept, strip);
    }
    lemma_patched_fits(section, info.pcr_pid, kept, strip);
    assert(carries(
        section_packet(sent, program_of(s).pmt_pid, cc, 0),
        program_of(s).pmt_pid as int,
        sent,
    )) by {
        lemma_packet_carries(sent, program_of(s).pmt_pid, cc);
    }
}

proof fn lemma_pmt_says(s: MuxState, section: Seq<u8>)
    requires
        section.len() >= 16,
        12 + len12(section[10], section[11]) <= section.len(),
        pmt_of(section) is Some,
    ensures
        ({
            let strip = s.output.ca_flag == 1;
            let kept = kept_streams(program_of(s));
            let info = pmt_of(section)->0;
            &&& patched_pmt(section, info.pcr_pid, kept, strip) is Some
            &&& pmt_of(patched_pmt(section, info.pcr_pid, kept, strip)->0) == Some(
                PmtModel {
                    pcr_pid: info.pcr_pid,
                    streams: of_program(
                        info.streams,
                        program_of(s).video_pids@,
                        program_of(s).audio_pids@,
                    ),
                },
            )
        }),
{
    let strip = s.output.ca_flag == 1;
    let info = pmt_of(section)->0;
    let kept = kept_streams(program_of(s));
    let rest = section.skip(12 + len12(section[10], section[11]));
    let listed = of_program(
        streams_of(rest)->0,
        program_of(s).video_pids@,
        program_of(s).audio_pids@,
    );
    assert(streams_of(rest) is Some && info.streams == streams_of(rest)->0);
    lemma_passed_is_of_program(s, rest, strip);
    lemma_pmt_says_passed(section, info.pcr_pid, kept, strip, listed);
    lemma_pid_in_range(section[8], section[9]);
}

proof fn lemma_pid_in_range(hi: u8, lo: u8)
    ensures
        pid13(hi, lo) < 0x2000,
{
}

proof fn lemma_pmt_says_passed(
    section: Seq<u8>,
    pcr_pid: u16,
    mappings: Seq<(u16, u16)>,
    strip: bool,
    listed: Seq<StreamModel>,
)
    requires
        section.len() >= 12,
        12 + len12(section[10], section[11]) <= section.len(),
        patched_streams(
            section.skip(12 + len12(section[10], section[11])),
            mappings,
            strip,
        ) is Some,
        passed_streams(section.skip(12 + len12(section[10], section[11])), mappings, strip)
            == listed,
    ensures
        patched_pmt(section, pcr_pid, mappings, strip) is Some,
        pcr_pid < 0x2000 ==> pmt_of(patched_pmt(section, pcr_pid, mappings, strip)->0) == Some(
            PmtModel { pcr_pid, streams: listed },
        ),
{
    lemma_patched_is_some(section, pcr_pid, mappings, strip);
    law_patched_pmt_lists(section, pcr_pid, mappings, strip);
    if pcr_pid < 0x2000 {
        lemma_same_map(
            pmt_of(patched_pmt(section, pcr_pid, mappings, strip)->0),
            pcr_pid,
            passed_streams(section.skip(12 + len12(section[10], section[11])), mappings, strip),
            listed,
        );
    }
}

proof fn lemma_patched_is_some(
    section: Seq<u8>,
    pcr_pid: u16,
    mappings: Seq<(u16, u16)>,
    strip: bool,
)
    requires
        section.len() >= 12,
        12 + len12(section[10], section[11]) <= section.len(),
        patched_streams(
            section.skip(12 + len12(section[10], section[11])),
            mappings,
            strip,
        ) is Some,
    ensures
        patched_pmt(section, pcr_pid, mappings, strip) is Some,
{
}

proof fn lemma_without_ca_shorter(d: Seq<u8>)
    ensures
        crate::psi::pmt::without_ca(d).len() <= d.len(),
    decreases d.len(),
{
    if d.len() < 2 || 2 + d[1] > d.len() {
    } else {
        lemma_without_ca_shorter(d.skip(2 + d[1] as int));
    }
}

proof fn lemma_streams_shorter(rest: Seq<u8>, mappings: Seq<(u16, u16)>, strip: bool)
    requires
        patched_streams(rest, mappings, strip) is Some,
        ends_at_checksum(rest),
    ensures
        patched_streams(rest, mappings, strip)->0.len() + 4 <= rest.len(),
    decreases rest.len(),
{
    if rest.len() >= 9 {
        let end = 5 + len12(rest[3], rest[4]);
        lemma_streams_shorter(rest.skip(end), mappings, strip);
        lemma_without_ca_shorter(rest.subrange(5, end));
    }
}

proof fn lemma_patched_fits(
    section: Seq<u8>,
    pcr_pid: u16,
    mappings: Seq<(u16, u16)>,
    strip: bool,
)
    requires
        16 <= section.len() <= 183,
        12 + len12(section[10], section[11]) <= section.len(),
        ends_at_checksum(section.skip(12 + len12(section[10], section[11]))),
        patched_pmt(section, pcr_pid, mappings, strip) is Some,
    ensures
        ({
            let sent = patched_pmt(section, pcr_pid, mappings, strip)->0;
            &&& 16 <= sent.len() <= section.len()
            &&& section_total(sent) == sent.len()
            &&& sent[0] == section[0]
            &&& sent.subrange(3, 8) == section.subrange(3, 8)
        }),
{
    let at = 12 + len12(section[10], section[11]);
    let rest = section.skip(at);
    lemma_without_ca_shorter(section.subrange(12, at));
    lemma_streams_shorter(rest, mappings, strip);
    let body = patched_pmt_head(section, pcr_pid, strip) + patched_streams(
        rest,
        mappings,
        strip,
    )->0;
    lemma_finished(body);
    let sent = patched_pmt(section, pcr_pid, mappings, strip)->0;
    assert(sent == with_crc(with_length12(body)));
    assert(body[0] == section[0]);
    assert forall|i: int| 3 <= i < 8 implies sent[i] == section[i] by {
        assert(sent[i] == body[i]);
    }
    assert(sent.subrange(3, 8) =~= section.subrange(3, 8));
}

/// A map that differs from the one that was first seen, in its clock, in the number of
/// its streams, or by a stream of a type that the other one does not have, stops the
/// output; one with the same clock and the same streams lets it go on. What it is, is
/// reported before the command that follows from it.
pub proof fn law_pmt_change_stops(s: MuxState, section: Seq<u8>, pid: u16)
    requires
        s.pmt_ready,
        s.pmt_info is Some,
        pmt_of(section) is Some,
    ensures
        ({
            let after = with_pmt_section(s, section, pid);
            let old_map = s.pmt_info->0;
            let new_map = pmt_of(section)->0;
            let differs = old_map.pcr_pid != new_map.pcr_pid || old_map.streams.len()
                != new_map.streams.len() || exists|i: int|
                0 <= i < new_map.streams.len() && !lists(
                    old_map.streams,
                    (#[trigger] new_map.streams[i]).stream_type,
                    new_map.streams[i].pid,
                );
            let same = old_map.pcr_pid == new_map.pcr_pid && old_map.streams == new_map.streams;
            &&& differs ==> after.dirty && !after.is_ready && after.video.len() == 0
                && after.audio.len() == 0 && after.reports == s.reports + seq![
                MuxNote::PmtChanged,
                MuxNote::BuffersCleared { video: video_size(s), audio: audio_size(s) },
                MuxNote::Command(Cmd::MarkDirty),
            ]
            &&& same ==> !after.dirty && after.video == s.video && after.audio == s.audio
                && after.is_ready == s.is_ready && (s.dirty ==> after.reports == s.reports + seq![
                MuxNote::PmtRestored,
                MuxNote::Command(Cmd::UnMarkDirty),
            ])
        }),
{
    let old_map = s.pmt_info->0;
    let new_map = pmt_of(section)->0;
    let a = stream_pairs(old_map.streams);
    let b = stream_pairs(new_map.streams);
    let after = with_pmt_section(s, section, pid);
    if old_map.streams.len() != new_map.streams.len() {
        lemma_same_pairs_same_len(a, b);
    }
    if exists|i: int|
        0 <= i < new_map.streams.len() && !lists(
            old_map.streams,
            (#[trigger] new_map.streams[i]).stream_type,
            new_map.streams[i].pid,
        ) {
        let i = choose|i: int|
            0 <= i < new_map.streams.len() && !lists(
                old_map.streams,
                (#[trigger] new_map.streams[i]).stream_type,
                new_map.streams[i].pid,
            );
        let x = b[i];
        lemma_occurs(b, i);
        lemma_not_listed(old_map.streams, new_map.streams[i].stream_type, new_map.streams[i].pid);
        assert(occurrences(a, x) != occurrences(b, x));
    }
    assert(after.reports.len() == s.reports.len() + 3 ==> after.reports =~= s.reports + seq![
        MuxNote::PmtChanged,
        MuxNote::BuffersCleared { video: video_size(s), audio: audio_size(s) },
        MuxNote::Command(Cmd::MarkDirty),
    ]);
    assert(after.reports.len() == s.reports.len() + 2 ==> after.reports =~= s.reports + seq![
        MuxNote::PmtRestored,
        MuxNote::Command(Cmd::UnMarkDirty),
    ]);
}

/// Whether a list holds a stream of a type.
pub open spec fn lists(streams: Seq<StreamModel>, stream_type: u8, pid: u16) -> bool {
    exists|i: int|
        0 <= i < streams.len() && (#[trigger] streams[i]).stream_type == stream_type
            && streams[i].pid == pid
}

proof fn lemma_not_listed(streams: Seq<StreamModel>, stream_type: u8, pid: u16)
    requires
        !lists(streams, stream_type, pid),
    ensures
        occurrences(stream_pairs(streams), (stream_type as u16, pid)) == 0,
    decreases streams.len(),
{
    if streams.len() > 0 {
        let head = streams.drop_last();
        assert(stream_pairs(streams).drop_last() =~= stream_pairs(head));
        assert(!lists(head, stream_type, pid)) by {
            if lists(head, stream_type, pid) {
                let i = choose|i: int|
                    0 <= i < head.len() && (#[trigger] head[i]).stream_type == stream_type
                        && head[i].pid == pid;
                assert(streams[i] == head[i]);
            }
        }
        lemma_not_listed(head, stream_type, pid);
        let n = streams.len() - 1;
        assert(!(streams[n].stream_type == stream_type && streams[n].pid == pid));
    }
}

proof fn lemma_occurs(s: Seq<(u16, u16)>, i: int)
    requires
        0 <= i < s.len(),
    ensures
        occurrences(s, s[i]) > 0,
    decreases s.len(),
{
    if i < s.len() - 1 {
        lemma_occurs(s.drop_last(), i);
    }
}

proof fn lemma_remove_one(s: Seq<(u16, u16)>, i: int, x: (u16, u16))
    requires
        0 <= i < s.len(),
    ensures
        occurrences(s.remove(i), x) == occurrences(s, x) - if s[i] == x {
            1int
        } else {
            0
        },
    decreases s.len(),
{
    if i == s.len() - 1 {
        assert(s.remove(i) =~= s.drop_last());
    } else {
        lemma_remove_one(s.drop_last(), i, x);
        assert(s.remove(i).drop_last() =~= s.drop_last().remove(i));
        assert(s.remove(i).last() == s.last());
    }
}

proof fn lemma_place_of(s: Seq<(u16, u16)>, x: (u16, u16)) -> (i: int)
    requires
        occurrences(s, x) > 0,
    ensures
        0 <= i < s.len() && s[i] == x,
    decreases s.len(),
{
    if s.last() == x {
        s.len() - 1
    } else {
        lemma_place_of(s.drop_last(), x)
    }
}

proof fn lemma_same_pairs_same_len(a: Seq<(u16, u16)>, b: Seq<(u16, u16)>)
    ensures
        crate::psi::pairs::same_pairs(a, b) ==> a.len() == b.len(),
    decreases a.len(),
{
    if crate::psi::pairs::same_pairs(a, b) {
        if a.len() == 0 {
            if b.len() > 0 {
                lemma_occurs(b, 0);
                assert(occurrences(a, b[0]) == occurrences(b, b[0]));
            }
        } else {
            let x = a.last();
            lemma_occurs(a, a.len() - 1);
            assert(occurrences(a, x) == occurrences(b, x));
            let i = lemma_place_of(b, x);
            let rest = b.remove(i);
            assert forall|y: (u16, u16)| #[trigger]
                occurrences(a.drop_last(), y) == occurrences(rest, y) by {
                lemma_remove_one(b, i, y);
                assert(occurrences(a, y) == occurrences(b, y));
            }
            lemma_same_pairs_same_len(a.drop_last(), rest);
        }
    }
}

// ---- Names ----

/// The name that is to be sent: the configured one without the white space around it,
/// unless it is blank; then the one that was received.
pub open spec fn name_to_send(configured: Seq<char>, received: Seq<char>) -> Seq<char> {
    if forall|i: int| 0 <= i < configured.len() ==> white_space(#[trigger] configured[i]) {
        trimmed(received)
    } else {
        trimmed(configured)
    }
}

proof fn lemma_name_to_send(configured: Seq<char>, received: Seq<char>)
    ensures
        chosen_name(configured, received) == name_to_send(configured, received),
{
    law_trimmed(configured);
}

/// Whether a table describes one running service, and no other.
pub open spec fn describes(
    sent: Seq<u8>,
    service_id: u16,
    service_type: u8,
    provider: Seq<char>,
    service: Seq<char>,
) -> bool {
    &&& sdt_services(sent) == Some(
        seq![
            SdtModel {
                service_id,
                service_type,
                provider_name: provider,
                service_name: service,
                running_status: 4,
            },
        ],
    )
    &&& sent[0] == 0x42
    &&& sent == with_crc(sent.take(sent.len() - 4))
}

/// Whether a packet carries a table of a transport stream that describes one running
/// service, and no other.
pub open spec fn carries_description(
    pkt: Seq<u8>,
    transport_stream_id: int,
    service_id: u16,
    service_type: u8,
    provider: Seq<char>,
    service: Seq<char>,
) -> bool {
    exists|sent: Seq<u8>|
        {
            &&& #[trigger] carries(pkt, 0x11, sent)
            &&& describes(sent, service_id, service_type, provider, service)
            &&& sent[3] * 256 + sent[4] == transport_stream_id
        }
}

proof fn lemma_sdt_sent(
    transport_stream_id: u16,
    service_id: u16,
    service_type: u8,
    provider: Seq<char>,
    service: Seq<char>,
)
    requires
        encode_utf8(provider).len() + encode_utf8(service).len() <= 156,
    ensures
        carries_description(
            crate::psi::sdt::prepared_sdt(
                transport_stream_id,
                service_id,
                service_type,
                provider,
                service,
            ),
            transport_stream_id as int,
            service_id,
            service_type,
            provider,
            service,
        ),
{
    let header = new_sdt_header(transport_stream_id);
    law_patched_sdt_describes(header, service_id, service_type, provider, service);
    let d = crate::psi::sdt::service_descriptor(service_type, provider, service);
    let body = header.take(11) + crate::psi::sdt::service_entry(service_id, d);
    lemma_finished(body);
    let sent = patched_sdt(header, service_id, service_type, provider, service);
    assert(sent[3] == body[3] && sent[4] == body[4]);
    lemma_packet_carries(sent, 0x11, 0);
    assert(carries(
        crate::psi::sdt::prepared_sdt(
            transport_stream_id,
            service_id,
            service_type,
            provider,
            service,
        ),
        0x11,
        sent,
    ));
}

proof fn lemma_first_service(services: Seq<SdtModel>, id: u16, i: int)
    requires
        0 <= i < services.len(),
        services[i].service_id == id,
        forall|j: int| 0 <= j < i ==> (#[trigger] services[j]).service_id != id,
    ensures
        service_with_id(services, id) == Some(services[i]),
    decreases services.len(),
{
    if i > 0 {
        let rest = services.drop_first();
        assert(services[0].service_id != id);
        assert forall|j: int| 0 <= j < i - 1 implies (#[trigger] rest[j]).service_id != id by {
            assert(rest[j] == services[j + 1]);
        }
        lemma_first_service(rest, id, i - 1);
    }
}

proof fn lemma_no_service(services: Seq<SdtModel>, id: u16)
    requires
        forall|j: int| 0 <= j < services.len() ==> (#[trigger] services[j]).service_id != id,
    ensures
        service_with_id(services, id) is None,
    decreases services.len(),
{
    if services.len() > 0 {
        let rest = services.drop_first();
        assert(services[0].service_id != id);
        assert forall|j: int| 0 <= j < rest.len() implies (#[trigger] rest[j]).service_id
            != id by {
            assert(rest[j] == services[j + 1]);
        }
        lemma_no_service(rest, id);
    }
}

proof fn lemma_sdt_step(
    s: MuxState,
    pkt: Seq<u8>,
    section: Seq<u8>,
    services: Seq<SdtModel>,
    i: int,
)
    requires
        carries(pkt, 0x11, section),
        s.pat_ready,
        !s.sdt_ready,
        sdt_services(section) == Some(services),
        0 <= i < services.len(),
        services[i].service_id == program_of(s).program_id,
        forall|j: int|
            0 <= j < i ==> (#[trigger] services[j]).service_id != program_of(s).program_id,
    ensures
        with_packet(s, pkt).sdt_ready,
        with_packet(s, pkt).sdt == crate::psi::sdt::prepared_sdt(
            (s.pat[8] * 256 + s.pat[9]) as u16,
            program_of(s).program_id,
            type_to_send(program_of(s).service_type, services[i].service_type),
            name_to_send(program_of(s).service_provider_name@, services[i].provider_name),
            name_to_send(program_of(s).service_name@, services[i].service_name),
        ),
{
    reveal(with_packet);
    lemma_carried(pkt, 0x11, section, s.pending);
    lemma_first_service(services, program_of(s).program_id, i);
    lemma_name_to_send(program_of(s).service_provider_name@, services[i].provider_name);
    lemma_name_to_send(program_of(s).service_name@, services[i].service_name);
}

/// The kind of service that is to be sent: the configured one, unless it is 0; then the
/// one that was received, unless it is 0; then that of a television service.
pub open spec fn type_to_send(configured: u32, received: u8) -> u8 {
    if configured != 0 {
        (configured % 256) as u8
    } else if received != 0 {
        received
    } else {
        1
    }
}

/// The description that is sent, read back, names the configured program with the
/// configured names, trimmed, whatever the description that came in says; a name that
/// came in is used only where the configured one is blank. It belongs to the transport
/// stream of the list of programs that is sent. This holds of names that fit into a
/// packet.
pub proof fn law_description_has_configured_names(
    s: MuxState,
    pkt: Seq<u8>,
    section: Seq<u8>,
    services: Seq<SdtModel>,
    i: int,
)
    requires
        carries(pkt, 0x11, section),
        s.pat_ready,
        !s.sdt_ready,
        sdt_services(section) == Some(services),
        0 <= i < services.len(),
        services[i].service_id == program_of(s).program_id,
        forall|j: int|
            0 <= j < i ==> (#[trigger] services[j]).service_id != program_of(s).program_id,
        encode_utf8(
            name_to_send(program_of(s).service_provider_name@, services[i].provider_name),
        ).len() + encode_utf8(
            name_to_send(program_of(s).service_name@, services[i].service_name),
        ).len() <= 156,
    ensures
        ({
            let t = with_packet(s, pkt);
            let program = s.output.programs@[0];
            &&& t.sdt_ready
            &&& carries_description(
                t.sdt,
                s.pat[8] * 256 + s.pat[9],
                program.program_id,
                type_to_send(program.service_type, services[i].service_type),
                name_to_send(program.service_provider_name@, services[i].provider_name),
                name_to_send(program.service_name@, services[i].service_name),
            )
        }),
{
    lemma_sdt_step(s, pkt, section, services, i);
    let program = s.output.programs@[0];
    lemma_sdt_sent(
        (s.pat[8] * 256 + s.pat[9]) as u16,
        program.program_id,
        type_to_send(program.service_type, services[i].service_type),
        name_to_send(program.service_provider_name@, services[i].provider_name),
        name_to_send(program.service_name@, services[i].service_name),
    );
}

/// Where both names and the kind of service are configured, what came in of them does
/// not matter at all: whichever two descriptions of the program come in, the same one is
/// sent.
pub proof fn law_received_names_do_not_matter(
    s: MuxState,
    pkt1: Seq<u8>,
    section1: Seq<u8>,
    services1: Seq<SdtModel>,
    i1: int,
    pkt2: Seq<u8>,
    section2: Seq<u8>,
    services2: Seq<SdtModel>,
    i2: int,
)
    requires
        s.pat_ready,
        !s.sdt_ready,
        trimmed(program_of(s).service_name@).len() > 0,
        trimmed(program_of(s).service_provider_name@).len() > 0,
        program_of(s).service_type != 0,
        carries(pkt1, 0x11, section1),
        carries(pkt2, 0x11, section2),
        sdt_services(section1) == Some(services1),
        sdt_services(section2) == Some(services2),
        0 <= i1 < services1.len() && services1[i1].service_id == program_of(s).program_id,
        0 <= i2 < services2.len() && services2[i2].service_id == program_of(s).program_id,
        forall|j: int|
            0 <= j < i1 ==> (#[trigger] services1[j]).service_id != program_of(s).program_id,
        forall|j: int|
            0 <= j < i2 ==> (#[trigger] services2[j]).service_id != program_of(s).program_id,
    ensures
        with_packet(s, pkt1).sdt == with_packet(s, pkt2).sdt,
{
    lemma_sdt_step(s, pkt1, section1, services1, i1);
    lemma_sdt_step(s, pkt2, section2, services2, i2);
    law_trimmed(program_of(s).service_name@);
    law_trimmed(program_of(s).service_provider_name@);
}

/// A description that does not name the program is not used: the output still waits for
/// one that does.
pub proof fn law_foreign_description_is_not_used(
    s: MuxState,
    pkt: Seq<u8>,
    section: Seq<u8>,
    services: Seq<SdtModel>,
)
    requires
        carries(pkt, 0x11, section),
        s.pat_ready,
        !s.sdt_ready,
        sdt_services(section) == Some(services),
        forall|j: int|
            0 <= j < services.len() ==> (#[trigger] services[j]).service_id != program_of(
                s,
            ).program_id,
    ensures
        !with_packet(s, pkt).sdt_ready,
        with_packet(s, pkt).sdt == s.sdt,
{
    reveal(with_packet);
    lemma_carried(pkt, 0x11, section, s.pending);
    lemma_no_service(services, program_of(s).program_id);
}

/// Where no description came in until the list of programs and the map are there, one is
/// made from the configuration: it names the configured program with the configured
/// names, trimmed. This holds of names that fit into a packet.
pub proof fn law_description_is_made_up(s: MuxState, now: i64)
    requires
        !s.is_ready,
        s.pat_ready,
        s.pmt_ready,
        !s.sdt_ready,
        encode_utf8(trimmed(program_of(s).service_provider_name@)).len() + encode_utf8(
            trimmed(program_of(s).service_name@),
        ).len() <= 156,
    ensures
        ({
            let t = start_checked(s, now);
            let program = s.output.programs@[0];
            &&& t.sdt_ready
            &&& carries_description(
                t.sdt,
                s.pat[8] * 256 + s.pat[9],
                program.program_id,
                type_to_send(program.service_type, 0),
                trimmed(program.service_provider_name@),
                trimmed(program.service_name@),
            )
        }),
{
    lemma_made_up(s, now);
    let program = s.output.programs@[0];
    lemma_sdt_sent(
        (s.pat[8] * 256 + s.pat[9]) as u16,
        program.program_id,
        type_to_send(program.service_type, 0),
        trimmed(program.service_provider_name@),
        trimmed(program.service_name@),
    );
}

proof fn lemma_made_up(s: MuxState, now: i64)
    requires
        !s.is_ready,
        s.pat_ready,
        s.pmt_ready,
        !s.sdt_ready,
    ensures
        start_checked(s, now).sdt_ready,
        start_checked(s, now).sdt == crate::psi::sdt::prepared_sdt(
            (s.pat[8] * 256 + s.pat[9]) as u16,
            program_of(s).program_id,
            type_to_send(program_of(s).service_type, 0),
            trimmed(program_of(s).service_provider_name@),
            trimmed(program_of(s).service_name@),
        ),
{
    reveal(start_checked);
    reveal(crate::mux::state::clock_resynced);
}

// ---- Where tables come from ----

/// The tables that are sent change only by packets of the tables: the list of programs
/// by those of its own identifier, the map by those of the program's map, and the
/// description by those of its own. Once a table is there it stays.
pub proof fn law_tables_come_from_tables(s: MuxState, pkt: Seq<u8>)
    ensures
        ({
            let t = with_packet(s, pkt);
            let pid = pid_of(pkt) as u16;
            &&& pid != 0x0000 || s.pat_ready ==> t.pat == s.pat && t.pat_ready == s.pat_ready
            &&& pid != s.output.programs@[0].pmt_pid || s.pmt_ready ==> t.pmt == s.pmt
                && t.pmt_ready == s.pmt_ready && t.pmt_info == s.pmt_info
            &&& pid != 0x0011 || s.sdt_ready || !s.pat_ready ==> t.sdt == s.sdt && t.sdt_ready
                == s.sdt_ready
        }),
{
    reveal(with_packet);
    lemma_media_keeps_tables(s, pkt);
}

proof fn lemma_media_keeps_tables(s: MuxState, pkt: Seq<u8>)
    ensures
        ({
            let t = crate::mux::state::with_media_packet(s, pkt);
            &&& t.pat == s.pat && t.pmt == s.pmt && t.sdt == s.sdt
            &&& t.pat_ready == s.pat_ready && t.pmt_ready == s.pmt_ready && t.sdt_ready
                == s.sdt_ready
            &&& t.pmt_info == s.pmt_info && t.pat_info == s.pat_info
        }),
{
    let s1 = crate::mux::state::media_counted(s, pkt);
    lemma_counted(s, pkt);
    lemma_queued_flags(s1, pkt);
    reveal(crate::mux::state::size_checked);
}

/// Until sending starts every association table and every map is looked at, also after the
/// first one; while sending none is. The description is looked at once, after the
/// association table.
pub proof fn law_tables_are_looked_at(s: MuxState, pkt: Seq<u8>, pid: int, section: Seq<u8>)
    requires
        carries(pkt, pid, section),
    ensures
        ({
            let t = with_packet(s, pkt);
            let taken = MuxState { pending: t.pending, ..s };
            let pmt_pid = s.output.programs@[0].pmt_pid;
            let is_map = pid == pmt_pid && pid != 0 && pid != 0x11 && pid != 0x1FFF;
            &&& pid == 0 && !(s.pat_ready && s.is_ready) ==> t == with_pat_section(taken, section)
            &&& pid == 0 && s.pat_ready && s.is_ready ==> t == s
            &&& is_map && !(s.pmt_ready && s.is_ready) ==> t == with_pmt_section(
                taken,
                section,
                pmt_pid,
            )
            &&& is_map && s.pmt_ready && s.is_ready && !s.output.programs@[0].video_pids@.contains(
                pmt_pid,
            ) && !s.output.programs@[0].audio_pids@.contains(pmt_pid) ==> t == s
            &&& pid == 0x11 && (!s.pat_ready || s.sdt_ready) ==> t == s
            &&& pid == 0x11 && s.pat_ready && !s.sdt_ready ==> t == with_sdt_section(taken, section)
        }),
{
    reveal(with_packet);
    lemma_carried(pkt, pid, section, s.pending);
}

} // verus!
