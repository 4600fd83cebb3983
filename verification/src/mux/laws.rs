//! What holds of the packet handler as a whole.

use crate::clock::is_dts_after;
use crate::mux::out_buffer::{duration_of, PacketModel};
use crate::mux::reports::MuxNote;
use crate::mux::restamper::{law_resync_shows_dts, resynced, PcrRestamper};
use crate::mux::state::{
    aligned, audio_size, cbr_flushed, cbr_packet, cbr_packets, cc_checked, clock_counted, clock_of,
    clock_resynced, clock_written, datagrams, drift_checked, dts_leap, filling_sent, first_aligned,
    frame_flushed, is_audio, is_video, leap_noted, lemma_packet_keeps, media_counted, media_queued,
    next_packet, pkt_size_of, program_of, proxied, queued, sending, sent_packet, size_checked,
    start_checked, synced, tables_flushed, tables_sent, vbr_flushed, video_size, with_packet,
    with_pat_packet, with_pat_section, with_pmt_packet, with_sdt_packet, written, Cmd, MuxState,
    Step,
};
use crate::packet::{
    counter_of, discontinuity, null_packet, payload_start, pid_of, timestamps, with_next_counter,
};
use crate::psi::pat::{pat_programs, same_programs};
use vstd::prelude::*;

verus! {

/// While the tables are not as they were, nothing is sent and no input is taken
/// in.
pub proof fn law_dirty_sends_nothing(s: MuxState, chunk: Seq<u8>, now: i64)
    requires
        s.dirty,
    ensures
        cbr_flushed(s) == (s, None::<Seq<u8>>),
        vbr_flushed(s) == (s, None::<Seq<u8>>),
        frame_flushed(s) == (s, None::<Seq<u8>>),
        written(s, chunk, now) == (s, Step::Idle),
{
}

/// Before the buffer is full enough, nothing is sent.
pub proof fn law_not_ready_sends_nothing(s: MuxState)
    requires
        !s.is_ready,
    ensures
        cbr_flushed(s) == (s, None::<Seq<u8>>),
        vbr_flushed(s) == (s, None::<Seq<u8>>),
        frame_flushed(s) == (s, None::<Seq<u8>>),
{
}

/// A list of programs that has changed stops the output, and the same list
/// lets it go on: the first throws away what waits, the second does not. Each is
/// reported before the command that follows from it.
pub proof fn law_pat_change_stops(s: MuxState, section: Seq<u8>)
    requires
        s.pat_ready,
        section.len() >= 4,
    ensures
        ({
            let same = same_programs(s.pat_info, pat_programs(section));
            let after = with_pat_section(s, section);
            &&& !same ==> after.dirty && !sending(after) && after.video.len() == 0
                && after.audio.len() == 0 && after.reports == s.reports + seq![
                MuxNote::PatChanged,
                MuxNote::BuffersCleared { video: video_size(s), audio: audio_size(s) },
                MuxNote::Command(Cmd::MarkDirty),
            ]
            &&& same && s.dirty ==> after.reports == s.reports + seq![
                MuxNote::PatRestored,
                MuxNote::Command(Cmd::UnMarkDirty),
            ]
            &&& same ==> !after.dirty && after.video == s.video && after.audio == s.audio
        }),
{
    let after = with_pat_section(s, section);
    if !same_programs(s.pat_info, pat_programs(section)) {
        assert(after.reports =~= s.reports + seq![
            MuxNote::PatChanged,
            MuxNote::BuffersCleared { video: video_size(s), audio: audio_size(s) },
            MuxNote::Command(Cmd::MarkDirty),
        ]);
    } else if s.dirty {
        assert(after.reports =~= s.reports + seq![
            MuxNote::PatRestored,
            MuxNote::Command(Cmd::UnMarkDirty),
        ]);
    }
}

/// After synchronisation three packets in a row start at the head of the
/// buffer, and nothing that starts three packets in a row was dropped.
pub proof fn law_synced_is_aligned(b: Seq<u8>)
    requires
        synced(b).0,
    ensures
        aligned(synced(b).1, 0),
        exists|k: int|
            0 <= k && k + 564 <= b.len() && synced(b).1 == b.skip(k) && (forall|j: int|
                0 <= j < k ==> !#[trigger] aligned(b, j)),
{
    lemma_first_aligned(b, 0);
    let k = first_aligned(b, 0)->0;
    assert(synced(b).1 == b.skip(k));
}

proof fn lemma_first_aligned(b: Seq<u8>, i: int)
    requires
        0 <= i,
    ensures
        first_aligned(b, i) matches Some(k) ==> i <= k && aligned(b, k) && (forall|j: int|
            i <= j < k ==> !#[trigger] aligned(b, j)),
    decreases b.len() - i,
{
    if i + 564 <= b.len() && !aligned(b, i) {
        lemma_first_aligned(b, i + 1);
    }
}

/// Every packet that waits and every table is a whole packet.
pub open spec fn whole_packets(s: MuxState) -> bool {
    &&& forall|i: int| 0 <= i < s.video.len() ==> (#[trigger] s.video[i]).data.len() == 188
    &&& forall|i: int| 0 <= i < s.audio.len() ==> (#[trigger] s.audio[i]).data.len() == 188
    &&& s.pat.len() == 188 && s.pmt.len() == 188 && s.sdt.len() == 188
}

proof fn lemma_null_packet()
    ensures
        null_packet().len() == 188,
{
}

proof fn lemma_sent_packet_whole(s: MuxState, p: PacketModel)
    requires
        whole_packets(s),
        p.data.len() == 188,
    ensures
        whole_packets(sent_packet(s, p).0),
        sent_packet(s, p).1.len() == 188,
{
    reveal(sent_packet);
    reveal(drift_checked);
    reveal(clock_resynced);
    reveal(clock_written);
}

proof fn lemma_cbr_packet_whole(s: MuxState, adjusted: bool)
    requires
        whole_packets(s),
    ensures
        whole_packets(cbr_packet(s, adjusted).0),
        cbr_packet(s, adjusted).1.len() == 188,
{
    reveal(cbr_packet);
    reveal(clock_counted);
    reveal(next_packet);
    lemma_null_packet();
    let s1 = clock_counted(s, 1);
    let (s2, due) = next_packet(s1, true);
    assert(whole_packets(s2));
    match due {
        Some(p) => {
            let s3 = MuxState { n_payload: s2.n_payload.wrapping_add(1), ..s2 };
            assert(p.data.len() == 188);
            lemma_sent_packet_whole(s3, p);
        },
        None => {
            if s2.video.len() > 0 {
                let s3 = MuxState {
                    video: s2.video.drop_first(),
                    n_payload: s2.n_payload.wrapping_add(1),
                    ..s2
                };
                assert(whole_packets(s3));
                lemma_sent_packet_whole(s3, s2.video[0]);
            }
        },
    }
}

proof fn lemma_cbr_packets_whole(s: MuxState, adjusted: bool, n: int)
    requires
        whole_packets(s),
        n >= 0,
    ensures
        whole_packets(cbr_packets(s, adjusted, n).0),
        cbr_packets(s, adjusted, n).1.len() == 188 * n,
    decreases n,
{
    if n > 0 {
        lemma_cbr_packets_whole(s, adjusted, n - 1);
        lemma_cbr_packet_whole(cbr_packets(s, adjusted, n - 1).0, adjusted);
    }
}

proof fn lemma_tables_sent_whole(s: MuxState, constant_rate: bool)
    requires
        whole_packets(s),
    ensures
        whole_packets(tables_sent(s, constant_rate).0),
        tables_sent(s, constant_rate).1.len() == 0 || tables_sent(s, constant_rate).1.len() == 188,
{
    reveal(tables_sent);
    reveal(tables_flushed);
    reveal(clock_counted);
}

/// At a constant rate every datagram has the configured size, cut to whole
/// packets: what is missing is filled up.
pub proof fn law_cbr_datagram_size(s: MuxState)
    requires
        whole_packets(s),
        sending(s),
        pkt_size_of(s) >= 188,
    ensures
        cbr_flushed(s).1 matches Some(b) && b.len() == (pkt_size_of(s) as int / 188) * 188,
        whole_packets(cbr_flushed(s).0),
{
    reveal(filling_sent);
    reveal(clock_counted);
    lemma_null_packet();
    lemma_tables_sent_whole(s, true);
    let (s1, table) = tables_sent(s, true);
    let room = pkt_size_of(s) as int / 188 - table.len() / 188;
    let (s2, filling) = filling_sent(s1, room > 0);
    assert(whole_packets(s2));
    lemma_cbr_packets_whole(s2, filling.len() > 0, room - filling.len() / 188);
}

/// At most one packet of a table goes out at a time, with the counter of that
/// table moved on by one.
pub proof fn law_tables_one_at_a_time(s: MuxState)
    requires
        whole_packets(s),
    ensures
        ({
            let (t, table) = tables_flushed(s);
            &&& table.len() == 0 || table.len() == 188
            &&& table.len() > 0 ==> clock_of(s) is Some && ((table == with_next_counter(s.pat)
                && t.pat == table && t.pmt == s.pmt && t.sdt == s.sdt) || (table
                == with_next_counter(s.pmt) && t.pmt == table && t.pat == s.pat && t.sdt == s.sdt)
                || (table == with_next_counter(s.sdt) && t.sdt == table && t.pat == s.pat && t.pmt
                == s.pmt))
        }),
{
    reveal(tables_flushed);
}

/// Of audio and video the one that is to be decoded first goes out first, and
/// each keeps its order.
pub proof fn law_next_packet_is_earliest(s: MuxState, only_due: bool)
    ensures
        ({
            let (t, next) = next_packet(s, only_due);
            match next {
                Some(p) => (s.video.len() > 0 && p == s.video[0] && t.video == s.video.drop_first()
                    && t.audio == s.audio && (s.audio.len() > 0 ==> is_dts_after(
                    s.audio[0].dts,
                    p.dts,
                ))) || (s.audio.len() > 0 && p == s.audio[0] && t.audio == s.audio.drop_first()
                    && t.video == s.video && (s.video.len() > 0 ==> !is_dts_after(
                    p.dts,
                    s.video[0].dts,
                ))),
                None => t == s,
            }
        }),
        !only_due && (s.video.len() > 0 || s.audio.len() > 0) ==> next_packet(
            s,
            only_due,
        ).1 is Some,
{
    reveal(next_packet);
}

/// Datagrams put one after the other.
pub open spec fn joined(parts: Seq<Seq<u8>>) -> Seq<u8>
    decreases parts.len(),
{
    if parts.len() == 0 {
        Seq::empty()
    } else {
        parts[0] + joined(parts.drop_first())
    }
}

proof fn lemma_datagrams_join(b: Seq<u8>, size: int)
    requires
        size > 0,
    ensures
        joined(datagrams(b, size)) == b.take((b.len() as int / size) * size),
        forall|i: int|
            0 <= i < datagrams(b, size).len() ==> (#[trigger] datagrams(b, size)[i]).len() == size,
    decreases b.len(),
{
    let n = b.len() as int / size;
    vstd::arithmetic::div_mod::lemma_fundamental_div_mod(b.len() as int, size);
    vstd::arithmetic::mul::lemma_mul_is_commutative(size, n);
    vstd::arithmetic::div_mod::lemma_mod_bound(b.len() as int, size);
    if b.len() < size {
        vstd::arithmetic::div_mod::lemma_small_mod(b.len(), size as nat);
        assert(n * size == 0);
        assert(b.take(0) =~= Seq::<u8>::empty());
    } else {
        let rest = b.skip(size);
        lemma_datagrams_join(rest, size);
        vstd::arithmetic::div_mod::lemma_div_plus_one(rest.len() as int, size);
        assert(rest.len() + size == b.len());
        assert(b.len() as int / size == rest.len() as int / size + 1);
        let m = rest.len() as int / size;
        vstd::arithmetic::mul::lemma_mul_is_distributive_add_other_way(size, m, 1);
        assert(n * size == m * size + size);
        vstd::arithmetic::div_mod::lemma_fundamental_div_mod(rest.len() as int, size);
        vstd::arithmetic::mul::lemma_mul_is_commutative(size, m);
        vstd::arithmetic::div_mod::lemma_mod_bound(rest.len() as int, size);
        vstd::arithmetic::div_mod::lemma_div_pos_is_pos(rest.len() as int, size);
        vstd::arithmetic::mul::lemma_mul_nonnegative(m, size);
        let d = datagrams(b, size);
        assert(d.drop_first() =~= datagrams(rest, size));
        assert(d[0] == b.take(size));
        assert(b.take(n * size) =~= b.take(size) + rest.take(m * size));
        assert forall|i: int| 0 <= i < d.len() implies (#[trigger] d[i]).len() == size by {
            if i > 0 {
                assert(d[i] == datagrams(rest, size)[i - 1]);
            }
        }
    }
}

/// A proxy that is synchronised passes its input on unchanged: the datagrams
/// and what is left are the input, and each datagram has the configured size.
pub proof fn law_proxy_passes_input(s: MuxState, chunk: Seq<u8>)
    requires
        s.is_sync,
        s.output.pkt_size > 0,
    ensures
        joined(proxied(s, chunk).1) + proxied(s, chunk).0.in_buff == s.in_buff + chunk,
        forall|i: int|
            0 <= i < proxied(s, chunk).1.len() ==> (#[trigger] proxied(s, chunk).1[i]).len()
                == s.output.pkt_size,
{
    let b = s.in_buff + chunk;
    let size = s.output.pkt_size as int;
    lemma_datagrams_join(b, size);
    let cut = (b.len() as int / size) * size;
    vstd::arithmetic::div_mod::lemma_fundamental_div_mod(b.len() as int, size);
    vstd::arithmetic::mul::lemma_mul_is_commutative(size, b.len() as int / size);
    vstd::arithmetic::div_mod::lemma_mod_bound(b.len() as int, size);
    vstd::arithmetic::div_mod::lemma_div_pos_is_pos(b.len() as int, size);
    vstd::arithmetic::mul::lemma_mul_nonnegative(b.len() as int / size, size);
    assert(b.take(cut) + b.skip(cut) =~= b);
}

/// Packets that belong to neither a table nor the program leave no trace.
pub proof fn law_foreign_packet_ignored(s: MuxState, pkt: Seq<u8>)
    requires
        pid_of(pkt) as u16 != 0x0000,
        pid_of(pkt) as u16 != 0x0011,
        pid_of(pkt) as u16 != program_of(s).pmt_pid,
        !program_of(s).video_pids@.contains(pid_of(pkt) as u16),
        !program_of(s).audio_pids@.contains(pid_of(pkt) as u16),
    ensures
        with_packet(s, pkt) == s,
{
    reveal(with_packet);
}

/// Sending starts only with a buffer that holds the configured duration of video
/// and with all three tables, and the clock then shows the decoding time of the
/// first packet, less the delay of the decoder.
pub proof fn law_start_needs_buffer(s: MuxState, now: i64)
    requires
        !s.is_ready,
        start_checked(s, now).is_ready,
    ensures
        ({
            let t = start_checked(s, now);
            &&& t.pat_ready && t.pmt_ready && t.sdt_ready
            &&& t.video == s.video && t.audio == s.audio
            &&& t.video.len() > 0
            &&& duration_of(t.video) >= t.buffer_ms
            &&& t.restamper is Some ==> clock_of(t) == Some(
                (((t.video[0].dts - 27_000) % 0x2_0000_0000) * 300) as u64,
            )
        }),
{
    reveal(start_checked);
    reveal(clock_resynced);
    let t = start_checked(s, now);
    if let Some(r) = t.restamper {
        let set = PcrRestamper { first_pcr_value: None, total_packets_sent: 0, ..r };
        let dts = (s.video[0].dts - 27_000) % 0x2_0000_0000;
        law_resync_shows_dts(set, dts);
        assert(r == resynced(set, dts));
    }
}

/// No packet makes the handler ready: it may only stop it. What was reported stays,
/// and what is reported later stands behind it.
pub proof fn law_packet_starts_nothing(s: MuxState, pkt: Seq<u8>)
    ensures
        with_packet(s, pkt).is_ready ==> s.is_ready,
        with_packet(s, pkt).buffer_ms == s.buffer_ms,
        with_packet(s, pkt).output == s.output,
        s.reports.is_prefix_of(with_packet(s, pkt).reports),
{
    lemma_packet_keeps(s, pkt);
}

/// A packet with a payload whose counter does not follow that of the last one of
/// its stream is counted as a loss, from none where none was counted yet, and
/// reported; no other packet is. The counter of a packet with a payload is what the
/// next one is held against. Other streams are left alone.
pub proof fn law_loss_is_counted(s: MuxState, pkt: Seq<u8>, pid: u16)
    requires
        s.cc_errors.contains_key(pid) ==> s.cc_errors[pid] < usize::MAX,
    ensures
        ({
            let t = cc_checked(s, pkt, pid);
            let payload = payload_start(pkt) is Some;
            let lost = payload && s.last_cc.contains_key(pid) && counter_of(pkt) != (s.last_cc[pid]
                + 1) % 16;
            let counted = if s.cc_errors.contains_key(pid) {
                s.cc_errors[pid] as int
            } else {
                0
            };
            &&& lost ==> t.cc_errors == s.cc_errors.insert(pid, (counted + 1) as usize)
                && t.reports == s.reports.push(
                MuxNote::WrongCounter {
                    pid,
                    received: counter_of(pkt) as u8,
                    expected: ((s.last_cc[pid] + 1) % 16) as u8,
                },
            )
            &&& !lost ==> t.cc_errors == s.cc_errors && t.reports == s.reports
            &&& payload ==> t.last_cc == s.last_cc.insert(pid, counter_of(pkt) as u8)
            &&& !payload ==> t == s
        }),
{
}

/// Only packets of the configured streams wait.
pub open spec fn filtered(s: MuxState) -> bool {
    &&& forall|i: int|
        0 <= i < s.video.len() ==> (#[trigger] s.video[i]).data.len() == 188 && pid_of(
            s.video[i].data,
        ) == s.video[i].pid && is_video(s, s.video[i].pid)
    &&& forall|i: int|
        0 <= i < s.audio.len() ==> (#[trigger] s.audio[i]).data.len() == 188 && pid_of(
            s.audio[i].data,
        ) == s.audio[i].pid && is_audio(s, s.audio[i].pid)
}

proof fn lemma_media_filtered(s: MuxState, pkt: Seq<u8>)
    requires
        filtered(s),
        pkt.len() == 188,
    ensures
        filtered(media_queued(s, pkt)),
{
    reveal(media_queued);
    let pid = pid_of(pkt) as u16;
    assert(0 <= pid_of(pkt) < 0x2000);
    let announced = discontinuity(pkt);
    match timestamps(pkt, pid as int) {
        Some((pts, dts)) => {
            let t = MuxState {
                last_times: s.last_times.insert(pid, (pts as u64, dts as u64)),
                ..leap_noted(s, pid, dts as u64)
            };
            assert(filtered(t));
            lemma_queued_filtered(t, pkt, pid, true, announced || dts_leap(s, pid, dts as u64));
        },
        None => {
            lemma_queued_filtered(s, pkt, pid, false, announced);
        },
    }
}

proof fn lemma_counted_filtered(s: MuxState, pkt: Seq<u8>)
    requires
        filtered(s),
    ensures
        filtered(media_counted(s, pkt)),
{
    reveal(media_counted);
}

proof fn lemma_size_filtered(s: MuxState)
    requires
        filtered(s),
    ensures
        filtered(size_checked(s)),
{
    reveal(size_checked);
}

proof fn lemma_tables_filtered(s: MuxState, pkt: Seq<u8>)
    requires
        filtered(s),
    ensures
        filtered(with_pat_packet(s, pkt)),
        filtered(with_sdt_packet(s, pkt)),
        filtered(with_pmt_packet(s, pkt)),
{
}

/// Whatever comes in, only packets of the configured streams wait.
pub proof fn law_input_is_filtered(s: MuxState, pkt: Seq<u8>)
    requires
        filtered(s),
        pkt.len() == 188,
    ensures
        filtered(with_packet(s, pkt)),
{
    reveal(with_packet);
    let s1 = media_counted(s, pkt);
    lemma_counted_filtered(s, pkt);
    lemma_media_filtered(s1, pkt);
    lemma_size_filtered(media_queued(s1, pkt));
    lemma_tables_filtered(s, pkt);
}

proof fn lemma_queued_filtered(s: MuxState, pkt: Seq<u8>, pid: u16, pusi: bool, leap: bool)
    requires
        filtered(s),
        pkt.len() == 188,
        pid_of(pkt) == pid,
    ensures
        filtered(queued(s, pkt, pid, pusi, leap)),
{
    let t = queued(s, pkt, pid, pusi, leap);
    assert forall|i: int| 0 <= i < t.video.len() implies (#[trigger] t.video[i]).data.len() == 188
        && pid_of(t.video[i].data) == t.video[i].pid && is_video(t, t.video[i].pid) by {
        if i < s.video.len() {
            assert(t.video[i] == s.video[i]);
        }
    }
    assert forall|i: int| 0 <= i < t.audio.len() implies (#[trigger] t.audio[i]).data.len() == 188
        && pid_of(t.audio[i].data) == t.audio[i].pid && is_audio(t, t.audio[i].pid) by {
        if i < s.audio.len() {
            assert(t.audio[i] == s.audio[i]);
        }
    }
}

proof fn lemma_sent_keeps_pid(s: MuxState, p: PacketModel)
    requires
        p.data.len() == 188,
    ensures
        pid_of(sent_packet(s, p).1) == pid_of(p.data),
        sent_packet(s, p).0.video == s.video,
        sent_packet(s, p).0.audio == s.audio,
        sent_packet(s, p).0.output == s.output,
{
    reveal(sent_packet);
    reveal(drift_checked);
    reveal(clock_resynced);
    reveal(clock_written);
}

/// At a constant rate every packet that goes out behind the tables is a null
/// packet or belongs to a configured stream, and the rest still does.
pub proof fn law_output_is_filtered(s: MuxState, adjusted: bool)
    requires
        filtered(s),
    ensures
        ({
            let (t, out) = cbr_packet(s, adjusted);
            &&& filtered(t)
            &&& out == null_packet() || is_video(s, pid_of(out) as u16) || is_audio(
                s,
                pid_of(out) as u16,
            )
        }),
{
    reveal(cbr_packet);
    reveal(clock_counted);
    reveal(next_packet);
    let s1 = clock_counted(s, 1);
    let (s2, due) = next_packet(s1, true);
    assert(filtered(s2));
    match due {
        Some(p) => {
            let s3 = MuxState { n_payload: s2.n_payload.wrapping_add(1), ..s2 };
            lemma_sent_keeps_pid(s3, p);
        },
        None => {
            if s2.video.len() > 0 {
                let s3 = MuxState {
                    video: s2.video.drop_first(),
                    n_payload: s2.n_payload.wrapping_add(1),
                    ..s2
                };
                lemma_sent_keeps_pid(s3, s2.video[0]);
                assert(filtered(s3));
            }
        },
    }
}

} // verus!
