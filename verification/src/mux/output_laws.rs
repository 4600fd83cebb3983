//! What holds of the output: when a table and a packet leave, what is changed in a packet on
//! its way, and how the clock goes on.

use crate::clock::{is_dts_after, is_pcr_after, pcr_distance, pcr_reduced};
use crate::mux::laws::whole_packets;
use crate::mux::out_buffer::{duration_of, pcr_in, PacketModel};
use crate::mux::restamper::{
    law_restamped_reads_clock, law_resync_shows_dts, pcr_now, restamped, PcrRestamper,
};
use crate::mux::state::{
    adjust_due, cbr_flushed, cbr_packet, cbr_packets, clock_counted, clock_followed, clock_of,
    clock_resynced, clock_written, drift_checked, filling_sent, frame_filled, frame_flushed,
    input_ahead, lead_ms, may_send, next_packet, pkt_size_of, program_of, reported, sending,
    sent_packet, table_due, tables_flushed, tables_sent, vbr_flushed, vbr_packets, waiting,
    MuxState,
};
use crate::packet::{has_discontinuity_flag, has_pcr, pcr_value, with_next_counter};
use crate::status::StatsModel;
use vstd::arithmetic::div_mod::{lemma_mod_twice, lemma_sub_mod_noop};
use vstd::prelude::*;

verus! {

// ---- Tables ----

/// Whether one instant of the program clock lies behind another, by less than half a cycle.
pub open spec fn is_later(a: int, b: int) -> bool {
    0 < (a - b) % 2_576_980_377_600 < 1_288_490_188_800
}

/// Whether a table has not been sent for a number of milliseconds.
pub open spec fn is_overdue(last: Option<u64>, pcr: u64, ms: int) -> bool {
    last matches Some(at) ==> is_later(pcr as int, at + ms * 27_000)
}

/// Whether a packet is another one with its counter moved on by one.
pub open spec fn is_next_of(pkt: Seq<u8>, last: Seq<u8>) -> bool {
    &&& pkt.len() == last.len()
    &&& forall|i: int| 0 <= i < pkt.len() && i != 3 ==> pkt[i] == last[i]
    &&& pkt[3] / 16 == last[3] / 16
    &&& pkt[3] % 16 == (last[3] + 1) % 16
}

proof fn lemma_later(a: int, b: int)
    requires
        0 <= a,
        0 <= b,
    ensures
        is_pcr_after(pcr_reduced(a) as u64, pcr_reduced(b) as u64) == is_later(a, b),
{
    lemma_sub_mod_noop(a, b, 2_576_980_377_600);
    let x = pcr_reduced(a) as u64;
    let y = pcr_reduced(b) as u64;
    assert(x == a % 2_576_980_377_600);
    assert(y == b % 2_576_980_377_600);
    lemma_sub_mod_noop(x as int, y as int, 2_576_980_377_600);
    lemma_mod_twice(a, 2_576_980_377_600);
    lemma_mod_twice(b, 2_576_980_377_600);
    assert(pcr_distance(x, y) == (a - b) % 2_576_980_377_600);
}

proof fn lemma_clock_in_cycle(s: MuxState)
    ensures
        clock_of(s) matches Some(pcr) ==> pcr < 2_576_980_377_600,
{
}

proof fn lemma_overdue(pcr: u64, last: Option<u64>, ms: int)
    requires
        ms >= 0,
        pcr < 2_576_980_377_600,
    ensures
        table_due(pcr, last, ms) == is_overdue(last, pcr, ms),
{
    if let Some(at) = last {
        lemma_later(pcr as int, at + ms * 27_000);
        assert(pcr_reduced(pcr as int) == pcr);
    }
}

proof fn lemma_next_of(pkt: Seq<u8>)
    requires
        pkt.len() == 188,
    ensures
        is_next_of(with_next_counter(pkt), pkt),
{
}

/// Each table goes out again once it has not been sent for its period: the association
/// table and the map for 100 ms, the description for a second. Where several are due, the
/// association table goes first and the description last. What goes out is the table with
/// its counter moved on; nothing else changes, and when it went out is kept.
pub proof fn law_table_goes_out_when_due(s: MuxState, pcr: u64)
    requires
        whole_packets(s),
        clock_of(s) == Some(pcr),
    ensures
        ({
            let (t, table) = tables_flushed(s);
            let pat_due = s.pat_ready && is_overdue(s.insert_pat, pcr, 100);
            let pmt_due = s.pmt_ready && is_overdue(s.insert_pmt, pcr, 100);
            let sdt_due = s.sdt_ready && is_overdue(s.insert_sdt, pcr, 1000);
            &&& pat_due ==> is_next_of(table, s.pat) && t == (MuxState {
                pat: table,
                insert_pat: Some(pcr),
                ..s
            })
            &&& !pat_due && pmt_due ==> is_next_of(table, s.pmt) && t == (MuxState {
                pmt: table,
                insert_pmt: Some(pcr),
                ..s
            })
            &&& !pat_due && !pmt_due && sdt_due ==> is_next_of(table, s.sdt) && t == (MuxState {
                sdt: table,
                insert_sdt: Some(pcr),
                ..s
            })
            &&& !pat_due && !pmt_due && !sdt_due ==> table.len() == 0 && t == s
        }),
{
    reveal(tables_flushed);
    lemma_clock_in_cycle(s);
    lemma_overdue(pcr, s.insert_pat, 100);
    lemma_overdue(pcr, s.insert_pmt, 100);
    lemma_overdue(pcr, s.insert_sdt, 1000);
    lemma_next_of(s.pat);
    lemma_next_of(s.pmt);
    lemma_next_of(s.sdt);
}

/// A table that has just gone out does not go out again while the clock moves on by no more
/// than its period.
pub proof fn law_table_rests(at: u64, ticks: int, ms: int)
    requires
        0 <= ticks <= ms * 27_000,
        ms <= 1000,
    ensures
        !is_overdue(Some(at), ((at + ticks) % 2_576_980_377_600) as u64, ms),
{
    let pcr = ((at + ticks) % 2_576_980_377_600) as u64;
    assert(pcr == (at + ticks) % 2_576_980_377_600);
    lemma_sub_mod_noop(at + ticks, at + ms * 27_000, 2_576_980_377_600);
    lemma_sub_mod_noop(pcr as int, at + ms * 27_000, 2_576_980_377_600);
    lemma_mod_twice(at + ticks, 2_576_980_377_600);
    let d = ticks - ms * 27_000;
    assert((pcr - (at + ms * 27_000)) % 2_576_980_377_600 == d % 2_576_980_377_600);
}

// ---- What leaves next ----

/// Whether video leaves before audio: where no audio waits, or where it is to be decoded
/// later.
pub open spec fn video_leads(s: MuxState) -> bool {
    s.video.len() > 0 && (s.audio.len() == 0 || 0 < (s.audio[0].dts - s.video[0].dts)
        % 0x2_0000_0000 < 0x1_0000_0000)
}

/// The packet that is to be decoded next, and how video and audio wait without it.
pub open spec fn next_is(s: MuxState, p: PacketModel, t: MuxState) -> bool {
    if video_leads(s) {
        p == s.video[0] && t == (MuxState { video: s.video.skip(1), ..s })
    } else {
        s.audio.len() > 0 && p == s.audio[0] && t == (MuxState { audio: s.audio.skip(1), ..s })
    }
}

/// Whether the time of a packet has come: it is not later than the clock and the jitter
/// that is allowed.
pub open spec fn has_come(s: MuxState, dts: u64, pcr: u64) -> bool {
    !is_later(dts * 300, pcr + s.jitter_ms * 27_000)
}

/// Where packets wait, the one that is to be decoded next leaves, and no other. Where only
/// packets are asked for whose time has come, it leaves when it has come and stays when it
/// has not. With no clock none has come. Nothing else changes.
pub proof fn law_packet_leaves_in_time(s: MuxState, only_due: bool)
    ensures
        ({
            let (t, next) = next_packet(s, only_due);
            let p = if video_leads(s) {
                s.video[0]
            } else {
                s.audio[0]
            };
            let leaves = waiting(s) > 0 && (only_due ==> match clock_of(s) {
                Some(pcr) => has_come(s, p.dts, pcr),
                None => false,
            });
            &&& next is Some == leaves
            &&& leaves ==> next == Some(p) && next_is(s, p, t)
            &&& !leaves ==> t == s
        }),
{
    reveal(next_packet);
    reveal(may_send);
    lemma_clock_in_cycle(s);
    if let Some(pcr) = clock_of(s) {
        if s.video.len() > 0 {
            lemma_later(s.video[0].dts * 300, pcr + s.jitter_ms * 27_000);
        }
        if s.audio.len() > 0 {
            lemma_later(s.audio[0].dts * 300, pcr + s.jitter_ms * 27_000);
        }
    }
    if s.video.len() > 0 {
        assert(s.video.drop_first() =~= s.video.skip(1));
    }
    if s.audio.len() > 0 {
        assert(s.audio.drop_first() =~= s.audio.skip(1));
    }
    if s.video.len() > 0 && s.audio.len() > 0 {
        assert(is_dts_after(s.audio[0].dts, s.video[0].dts) == video_leads(s));
    }
}

// ---- The clock ----

/// Whether a decoding time lies at least a millisecond behind the clock.
pub open spec fn is_late(dts: u64, pcr: u64) -> bool {
    0x1_0000_0000 <= (dts - pcr as int / 300) % 0x2_0000_0000 <= 0x2_0000_0000 - 90
}

/// What the clock is set to for a decoding time: 300 ms before it.
pub open spec fn set_for(dts: u64) -> int {
    ((dts - 27_000) % 0x2_0000_0000) * 300
}

proof fn lemma_resynced(s: MuxState, dts: u64)
    ensures
        s.restamper is Some ==> clock_of(clock_resynced(s, dts)) == Some(set_for(dts) as u64),
        clock_resynced(s, dts) == (MuxState {
            restamper: clock_resynced(s, dts).restamper,
            ..s
        }),
        s.restamper is None ==> clock_resynced(s, dts) == s,
        s.restamper is Some ==> clock_resynced(s, dts).restamper is Some,
        0 <= set_for(dts) < 2_576_980_377_600,
{
    reveal(clock_resynced);
    if let Some(r) = s.restamper {
        law_resync_shows_dts(r, (dts - 27_000) % 0x2_0000_0000);
    }
}

proof fn lemma_late(s: MuxState, dts: u64, pcr: u64)
    requires
        clock_of(s) == Some(pcr),
    ensures
        (lead_ms(s, dts) < 0) == is_late(dts, pcr),
        ({
            let d = (dts - pcr as int / 300) % 0x2_0000_0000;
            &&& d < 0x1_0000_0000 ==> lead_ms(s, dts) == d / 90
            &&& d >= 0x1_0000_0000 ==> lead_ms(s, dts) == -((0x2_0000_0000 - d) / 90)
        }),
{
    reveal(lead_ms);
}

/// A packet that comes too late sets the clock 300 ms before its decoding time. Any other
/// leaves the clock as it is. By how many milliseconds it leads the clock is kept.
pub proof fn law_late_packet_sets_clock(s: MuxState, pid: u16, dts: u64, pcr: u64)
    requires
        clock_of(s) == Some(pcr),
    ensures
        ({
            let t = drift_checked(s, pid, dts);
            let d = (dts - pcr as int / 300) % 0x2_0000_0000;
            &&& is_late(dts, pcr) ==> clock_of(t) == Some(set_for(dts) as u64)
            &&& !is_late(dts, pcr) ==> t.restamper == s.restamper
            &&& t.stats.dts_drift.contains_key(pid)
            &&& d < 0x1_0000_0000 ==> t.stats.dts_drift[pid] == d / 90
            &&& d >= 0x1_0000_0000 ==> t.stats.dts_drift[pid] == -((0x2_0000_0000 - d) / 90)
            &&& t.video == s.video && t.audio == s.audio && t.n_payload == s.n_payload
        }),
{
    reveal(drift_checked);
    lemma_late(s, dts, pcr);
    let s1 = MuxState {
        stats: StatsModel {
            dts_drift: s.stats.dts_drift.insert(pid, lead_ms(s, dts)),
            ..s.stats
        },
        ..s
    };
    lemma_resynced(s1, dts);
}

/// A packet behind a leap of the time sets the clock 300 ms before its decoding time, so
/// that it leads the clock by just that much.
pub proof fn law_leap_sets_clock(s: MuxState, p: PacketModel)
    requires
        p.discontinuity,
        s.restamper is Some,
        p.dts < 0x2_0000_0000,
    ensures
        clock_of(sent_packet(s, p).0) == Some(set_for(p.dts) as u64),
        sent_packet(s, p).0.stats.dts_drift.contains_key(p.pid),
        sent_packet(s, p).0.stats.dts_drift[p.pid] == 300,
{
    reveal(sent_packet);
    let s1 = clock_resynced(s, p.dts);
    lemma_resynced(s, p.dts);
    let pcr = set_for(p.dts) as u64;
    lemma_lead_of_leap(p.dts);
    law_late_packet_sets_clock(s1, p.pid, p.dts, pcr);
    let s2 = drift_checked(s1, p.pid, p.dts);
    assert(clock_of(s2) == Some(pcr));
    if p.pid == program_of(s).pcr_pid {
        let data = marked(p);
        lemma_clock_written(s2, data);
    }
}

proof fn lemma_lead_of_leap(dts: u64)
    requires
        dts < 0x2_0000_0000,
    ensures
        (dts - set_for(dts) / 300) % 0x2_0000_0000 == 27_000,
{
}

/// The bytes of a packet with what it announces.
pub open spec fn marked(p: PacketModel) -> Seq<u8> {
    if p.discontinuity && has_discontinuity_flag(p.data) {
        p.data.update(5, (p.data[5] as int % 128 + 128) as u8)
    } else {
        p.data
    }
}

proof fn lemma_clock_written(s: MuxState, data: Seq<u8>)
    ensures
        ({
            let (t, out) = clock_written(s, data);
            &&& clock_of(t) == clock_of(s)
            &&& t.stats.dts_drift == s.stats.dts_drift
            &&& data.len() == 188 ==> out.len() == 188 && (forall|i: int|
                0 <= i < 188 && !(6 <= i < 12) ==> out[i] == data[i])
            &&& !has_pcr(data) || clock_of(s) is None ==> out == data
            &&& data.len() == 188 && has_pcr(data) && clock_of(s) is Some ==> has_pcr(out)
                && pcr_value(out) == clock_of(s)->0
            &&& t == (MuxState { restamper: t.restamper, stats: t.stats, ..s })
        }),
{
    reveal(clock_written);
    if let Some(r) = s.restamper {
        let (next, out, pcr) = restamped(r, data);
        if has_pcr(data) && pcr_now(r) is Some {
            if r.target_bitrate_bps != 0 {
                assert(0int / r.target_bitrate_bps as int == 0) by (nonlinear_arith)
                    requires
                        r.target_bitrate_bps > 0,
                ;
            }
            assert(pcr_now(next) == pcr_now(r));
            if data.len() == 188 {
                law_restamped_reads_clock(r, data);
            }
        }
    }
}

/// On its way out a packet keeps every byte but the mark of a discontinuity and its clock
/// reference. A leap of the time is marked where the packet has room for the mark. A clock
/// reference of the stream that bears the clock is what the clock shows then; one of another
/// stream stays.
pub proof fn law_packet_goes_out_as_it_came(s: MuxState, p: PacketModel)
    requires
        p.data.len() == 188,
    ensures
        ({
            let (t, out) = sent_packet(s, p);
            let bears = p.pid == program_of(s).pcr_pid && has_pcr(p.data) && s.restamper is Some
                && clock_of(t) is Some;
            &&& out.len() == 188
            &&& forall|i: int| 0 <= i < 188 && !(5 <= i < 12) ==> out[i] == p.data[i]
            &&& !p.discontinuity || !has_discontinuity_flag(p.data) ==> out[5] == p.data[5]
            &&& p.discontinuity && has_discontinuity_flag(p.data) ==> out[5] >= 128 && out[5] % 128
                == p.data[5] % 128
            &&& bears ==> pcr_value(out) == clock_of(t)->0
            &&& !bears ==> forall|i: int| 6 <= i < 12 ==> out[i] == p.data[i]
        }),
{
    reveal(sent_packet);
    let s1 = if p.discontinuity {
        clock_resynced(s, p.dts)
    } else {
        s
    };
    lemma_resynced(s, p.dts);
    let s2 = drift_checked(s1, p.pid, p.dts);
    lemma_drift_keeps(s1, p.pid, p.dts);
    let data = marked(p);
    assert(has_pcr(data) == has_pcr(p.data));
    lemma_clock_written(s2, data);
}

proof fn lemma_drift_keeps(s: MuxState, pid: u16, dts: u64)
    ensures
        drift_checked(s, pid, dts) == (MuxState {
            restamper: drift_checked(s, pid, dts).restamper,
            stats: drift_checked(s, pid, dts).stats,
            ..s
        }),
        drift_checked(s, pid, dts).restamper is Some == s.restamper is Some,
{
    reveal(drift_checked);
    let s1 = MuxState {
        stats: StatsModel {
            dts_drift: s.stats.dts_drift.insert(pid, lead_ms(s, dts)),
            ..s.stats
        },
        ..s
    };
    lemma_resynced(s1, dts);
}

/// Every packet that is neither late nor behind a leap leaves the clock running: it shows
/// after the packet what it showed before.
pub proof fn law_packet_in_time_keeps_clock(s: MuxState, p: PacketModel, pcr: u64)
    requires
        clock_of(s) == Some(pcr),
        !p.discontinuity,
        !is_late(p.dts, pcr),
    ensures
        clock_of(sent_packet(s, p).0) == Some(pcr),
{
    reveal(sent_packet);
    law_late_packet_sets_clock(s, p.pid, p.dts, pcr);
    let s2 = drift_checked(s, p.pid, p.dts);
    lemma_clock_written(s2, p.data);
}

// ---- At a constant rate ----

/// Whether a packet is the one that stands for nothing.
pub open spec fn is_null(pkt: Seq<u8>) -> bool {
    &&& pkt.len() == 188
    &&& pkt[0] == 0x47 && pkt[1] == 0x1F && pkt[2] == 0xFF && pkt[3] == 0x10
    &&& forall|i: int| 4 <= i < 188 ==> pkt[i] == 0xFF
}

/// Whether the bytes of a packet left as they came, but for the mark of a discontinuity and
/// its clock reference.
pub open spec fn is_as_it_came(out: Seq<u8>, p: PacketModel) -> bool {
    &&& out.len() == 188
    &&& forall|i: int| 0 <= i < 188 && !(5 <= i < 12) ==> out[i] == p.data[i]
}

/// Whether one packet more has been counted for the clock, and else nothing has changed.
pub open spec fn ticked(s: MuxState, t: MuxState) -> bool {
    t == (MuxState {
        restamper: match s.restamper {
            Some(r) => Some(
                PcrRestamper {
                    total_packets_sent: if r.total_packets_sent == u64::MAX {
                        0
                    } else {
                        (r.total_packets_sent + 1) as u64
                    },
                    ..r
                },
            ),
            None => None,
        },
        ..s
    })
}

/// Whether more input waits than the configured percentage of the video that waits.
pub open spec fn input_leads(s: MuxState) -> bool {
    s.adjust_buf > 0 && s.video.len() * 188 * s.adjust_buf < s.in_buff.len() * 100
}

proof fn lemma_input_leads(s: MuxState)
    requires
        s.video.len() * 188 <= usize::MAX,
    ensures
        input_ahead(s) == input_leads(s),
{
    reveal(input_ahead);
    let x = s.video.len() * 188 * s.adjust_buf;
    assert((s.in_buff.len() > x / 100) == (x < s.in_buff.len() * 100));
}

proof fn lemma_ticked(s: MuxState)
    ensures
        ticked(s, clock_counted(s, 1)),
{
    reveal(clock_counted);
}

proof fn lemma_sent_keeps(s: MuxState, p: PacketModel)
    ensures
        ({
            let t = sent_packet(s, p).0;
            t == (MuxState { restamper: t.restamper, stats: t.stats, ..s })
        }),
{
    reveal(sent_packet);
    let s1 = if p.discontinuity {
        clock_resynced(s, p.dts)
    } else {
        s
    };
    lemma_resynced(s, p.dts);
    lemma_drift_keeps(s1, p.pid, p.dts);
    lemma_clock_written(drift_checked(s1, p.pid, p.dts), marked(p));
}

/// At a constant rate every packet moves the clock on. The packet that is to be decoded
/// next leaves when its time has come. Where it has not, video leaves ahead of its time if
/// more input waits than the configured share of the video, unless the buffer was just
/// given time to fill up. Else a packet leaves that stands for nothing, and all that waits
/// stays. The one counts as payload, the other does not.
pub proof fn law_constant_rate_packet(s: MuxState, adjusted: bool, c: MuxState)
    requires
        whole_packets(s),
        s.video.len() * 188 <= usize::MAX,
        ticked(s, c),
    ensures
        ({
            let (t, out) = cbr_packet(s, adjusted);
            let p = if video_leads(s) {
                s.video[0]
            } else {
                s.audio[0]
            };
            let come = waiting(s) > 0 && match clock_of(c) {
                Some(pcr) => has_come(s, p.dts, pcr),
                None => false,
            };
            let ahead = !come && !adjusted && input_leads(s) && s.video.len() > 0;
            &&& come ==> is_as_it_came(out, p)
            &&& ahead ==> is_as_it_came(out, s.video[0])
            &&& come || ahead ==> t.n_payload == s.n_payload.wrapping_add(1) && t.n_null == s.n_null
            &&& !come && !ahead ==> is_null(out) && t == (MuxState {
                n_null: s.n_null.wrapping_add(1),
                ..c
            })
            &&& t.video == if come && video_leads(s) || ahead {
                s.video.skip(1)
            } else {
                s.video
            }
            &&& t.audio == if come && !video_leads(s) {
                s.audio.skip(1)
            } else {
                s.audio
            }
            &&& t.n_psi == s.n_psi && t.n_adjust == s.n_adjust && t.in_buff == s.in_buff
        }),
{
    reveal(cbr_packet);
    lemma_ticked(s);
    assert(clock_counted(s, 1) == c);
    law_packet_leaves_in_time(c, true);
    let (s2, due) = next_packet(c, true);
    match due {
        Some(p) => {
            let s3 = MuxState { n_payload: s2.n_payload.wrapping_add(1), ..s2 };
            law_packet_goes_out_as_it_came(s3, p);
            lemma_sent_keeps(s3, p);
        },
        None => {
            lemma_input_leads(s2);
            if !adjusted && input_ahead(s2) && s2.video.len() > 0 {
                let s3 = MuxState {
                    video: s2.video.drop_first(),
                    n_payload: s2.n_payload.wrapping_add(1),
                    ..s2
                };
                assert(s2.video.drop_first() =~= s2.video.skip(1));
                law_packet_goes_out_as_it_came(s3, s2.video[0]);
                lemma_sent_keeps(s3, s2.video[0]);
            }
        },
    }
}

/// The buffer is given time to fill up, by a packet that stands for nothing, where less
/// video waits than the configured percentage of the buffer leaves, and there is room.
/// Where more waits, or nothing is configured, or there is no room, it is not.
pub proof fn law_buffer_is_filled_up(s: MuxState, room: bool, ms: int)
    requires
        ms == duration_of(s.video),
    ensures
        ({
            let (t, out) = filling_sent(s, room);
            &&& room && 0 < s.adjust_buf < 100 && ms * 100 < s.buffer_ms * (100 - s.adjust_buf)
                ==> is_null(out) && t.n_adjust == s.n_adjust.wrapping_add(1) && ticked(
                s,
                MuxState { n_adjust: s.n_adjust, ..t },
            )
            &&& !room || s.adjust_buf == 0 || s.adjust_buf >= 100 || ms * 100 > s.buffer_ms * (100
                - s.adjust_buf) ==> out.len() == 0 && t == s
        }),
{
    reveal(filling_sent);
    reveal(adjust_due);
    lemma_ticked(s);
}

/// How many milliseconds of video wait: the decoding time from the first packet to the last
/// one.
pub proof fn law_duration_is_decoding_time(v: Seq<PacketModel>)
    ensures
        v.len() == 0 ==> duration_of(v) == 0,
        v.len() > 0 ==> ({
            let d = (v[v.len() - 1].dts - v[0].dts) % 0x2_0000_0000;
            duration_of(v) == if d < 0x1_0000_0000 {
                d / 90
            } else {
                0
            }
        }),
{
}

/// The packets of a datagram that a table and filling leave room for: each counts as
/// payload or as one that stands for nothing.
pub proof fn law_every_packet_is_counted(s: MuxState, adjusted: bool, n: int)
    requires
        whole_packets(s),
        0 <= n,
        s.n_payload + n <= usize::MAX,
        s.n_null + n <= usize::MAX,
        s.video.len() * 188 <= usize::MAX,
    ensures
        ({
            let (t, out) = cbr_packets(s, adjusted, n);
            &&& out.len() == n * 188
            &&& (t.n_payload - s.n_payload) + (t.n_null - s.n_null) == n
            &&& t.n_payload >= s.n_payload && t.n_null >= s.n_null
            &&& waiting(s) == waiting(t) + (t.n_payload - s.n_payload)
            &&& is_suffix(t.video, s.video) && is_suffix(t.audio, s.audio)
            &&& whole_packets(t)
            &&& t.n_psi == s.n_psi && t.n_adjust == s.n_adjust
        }),
    decreases n,
{
    if n == 0 {
        assert(s.video.skip(0) =~= s.video);
        assert(s.audio.skip(0) =~= s.audio);
    } else {
        law_every_packet_is_counted(s, adjusted, n - 1);
        let (s1, before) = cbr_packets(s, adjusted, n - 1);
        let c = clock_counted(s1, 1);
        lemma_ticked(s1);
        law_constant_rate_packet(s1, adjusted, c);
        let (t, pkt) = cbr_packet(s1, adjusted);
        lemma_suffix_next(s1.video, s.video);
        lemma_suffix_next(s1.audio, s.audio);
        lemma_cbr_keeps_tables(s1, adjusted);
    }
}

proof fn lemma_cbr_keeps_tables(s: MuxState, adjusted: bool)
    ensures
        ({
            let t = cbr_packet(s, adjusted).0;
            t.pat == s.pat && t.pmt == s.pmt && t.sdt == s.sdt
        }),
{
    reveal(cbr_packet);
    reveal(clock_counted);
    let c = clock_counted(s, 1);
    law_packet_leaves_in_time(c, true);
    let (s2, due) = next_packet(c, true);
    match due {
        Some(p) => {
            lemma_sent_keeps(MuxState { n_payload: s2.n_payload.wrapping_add(1), ..s2 }, p);
        },
        None => {
            if s2.video.len() > 0 {
                let s3 = MuxState {
                    video: s2.video.drop_first(),
                    n_payload: s2.n_payload.wrapping_add(1),
                    ..s2
                };
                lemma_sent_keeps(s3, s2.video[0]);
            }
        },
    }
}

/// Whether packets are what is left behind the first ones.
pub open spec fn is_suffix(rest: Seq<PacketModel>, all: Seq<PacketModel>) -> bool {
    rest.len() <= all.len() && rest == all.skip(all.len() - rest.len())
}

proof fn lemma_suffix_next(rest: Seq<PacketModel>, all: Seq<PacketModel>)
    requires
        is_suffix(rest, all),
    ensures
        rest.len() > 0 ==> is_suffix(rest.skip(1), all),
{
    if rest.len() > 0 {
        assert(rest.skip(1) =~= all.skip(all.len() - rest.skip(1).len()));
    }
}

/// As packets come, a table that goes out is counted, and the clock is not moved on by it.
pub proof fn law_table_leaves_clock_alone(s: MuxState)
    ensures
        ({
            let (t, table) = tables_sent(s, false);
            let (f, same) = tables_flushed(s);
            &&& table == same
            &&& table.len() > 0 ==> t == (MuxState { n_psi: s.n_psi.wrapping_add(1), ..f })
            &&& table.len() == 0 ==> t == f
            &&& t.restamper == s.restamper
        }),
{
    reveal(tables_sent);
    reveal(tables_flushed);
}

/// A run of packets as they come begins with the table that is due, and packets fill it up
/// to the configured size.
pub proof fn law_run_begins_with_table(s: MuxState)
    requires
        whole_packets(s),
        sending(s),
        s.n_payload + waiting(s) <= usize::MAX,
    ensures
        ({
            let (t, run) = vbr_flushed(s);
            let table = tables_flushed(s).1;
            let room = pkt_size_of(s) as int / 188 - table.len() / 188;
            let n = leaving(s, room);
            &&& run is None ==> table.len() == 0 && n == 0
            &&& run matches Some(b) ==> table.is_prefix_of(b) && b.len() > 0
            &&& waiting(t) == waiting(s) - n
            &&& t.n_payload == s.n_payload + n
            &&& is_suffix(t.video, s.video) && is_suffix(t.audio, s.audio)
        }),
{
    reveal(tables_flushed);
    law_table_leaves_clock_alone(s);
    let (s1, table) = tables_sent(s, false);
    let room = pkt_size_of(s) as int / 188 - table.len() / 188;
    law_packets_leave_unchanged(s1, room);
    lemma_run_is_whole(s1, room);
}

proof fn lemma_run_is_whole(s: MuxState, n: int)
    requires
        whole_packets(s),
    ensures
        vbr_packets(s, n).1.len() == 188 * leaving(s, n),
    decreases n,
{
    if n > 0 {
        law_packet_leaves_in_time(s, false);
        let (s1, next) = next_packet(s, false);
        if next is Some {
            let c = MuxState { n_payload: s1.n_payload.wrapping_add(1), ..s1 };
            lemma_run_is_whole(c, n - 1);
        }
    }
}

/// A datagram at a constant rate begins with the table that is due.
pub proof fn law_datagram_begins_with_table(s: MuxState)
    requires
        whole_packets(s),
        sending(s),
        pkt_size_of(s) >= 188,
    ensures
        cbr_flushed(s).1 matches Some(b) && tables_flushed(s).1.is_prefix_of(b),
        tables_flushed(s).1.len() > 0 ==> tables_sent(s, true).0.n_psi == s.n_psi.wrapping_add(1)
            && ticked(tables_flushed(s).0, MuxState { n_psi: s.n_psi, ..tables_sent(s, true).0 }),
        tables_flushed(s).1.len() == 0 ==> tables_sent(s, true).0 == s,
{
    reveal(tables_sent);
    reveal(tables_flushed);
    lemma_ticked(tables_flushed(s).0);
    reveal(clock_counted);
}

// ---- As packets come ----

/// Whether bytes are those of two runs of packets, each run in its order.
pub open spec fn interleaved(
    out: Seq<u8>,
    video: Seq<PacketModel>,
    audio: Seq<PacketModel>,
) -> bool
    decreases video.len() + audio.len(),
{
    if video.len() == 0 && audio.len() == 0 {
        out.len() == 0
    } else {
        ||| video.len() > 0 && out.len() >= video[0].data.len() && out.take(
            video[0].data.len() as int,
        ) == video[0].data && interleaved(
            out.skip(video[0].data.len() as int),
            video.skip(1),
            audio,
        )
        ||| audio.len() > 0 && out.len() >= audio[0].data.len() && out.take(
            audio[0].data.len() as int,
        ) == audio[0].data && interleaved(
            out.skip(audio[0].data.len() as int),
            video,
            audio.skip(1),
        )
    }
}

/// How many of the packets that wait leave with a run of at most so many.
pub open spec fn leaving(s: MuxState, n: int) -> int {
    if n <= 0 {
        0
    } else if n < waiting(s) {
        n
    } else {
        waiting(s) as int
    }
}

/// As packets come, as many leave as there is room for, none of them changed, video and
/// audio each in their order, and each counts as payload.
pub proof fn law_packets_leave_unchanged(s: MuxState, n: int)
    requires
        s.n_payload + waiting(s) <= usize::MAX,
    ensures
        ({
            let (t, out, pcr) = vbr_packets(s, n);
            let v = s.video.len() - t.video.len();
            let a = s.audio.len() - t.audio.len();
            &&& is_suffix(t.video, s.video) && is_suffix(t.audio, s.audio)
            &&& v + a == leaving(s, n)
            &&& interleaved(out, s.video.take(v), s.audio.take(a))
            &&& t == (MuxState {
                video: t.video,
                audio: t.audio,
                n_payload: (s.n_payload + leaving(s, n)) as usize,
                ..s
            })
        }),
    decreases n,
{
    lemma_run_keeps_others(s, n);
    if n > 0 && waiting(s) > 0 {
        lemma_run_step(s, n);
        let p = first_to_leave(s);
        let c = without_first(s);
        law_packets_leave_unchanged(c, n - 1);
        let (t, out, pcr) = vbr_packets(s, n);
        let rest = vbr_packets(c, n - 1).1;
        let v = s.video.len() - t.video.len();
        let a = s.audio.len() - t.audio.len();
        lemma_interleaved_next(s, t, p, out, rest, v, a);
    } else {
        lemma_run_end(s, n);
        assert(s.video.skip(0) =~= s.video);
        assert(s.audio.skip(0) =~= s.audio);
    }
}

/// The packet that is to be decoded next.
spec fn first_to_leave(s: MuxState) -> PacketModel {
    if video_leads(s) {
        s.video[0]
    } else {
        s.audio[0]
    }
}

/// What waits without that packet, once it is counted.
spec fn without_first(s: MuxState) -> MuxState {
    MuxState {
        video: if video_leads(s) {
            s.video.skip(1)
        } else {
            s.video
        },
        audio: if video_leads(s) {
            s.audio
        } else {
            s.audio.skip(1)
        },
        n_payload: s.n_payload.wrapping_add(1),
        ..s
    }
}

proof fn lemma_run_step(s: MuxState, n: int)
    requires
        n > 0,
        waiting(s) > 0,
    ensures
        vbr_packets(s, n).0 == vbr_packets(without_first(s), n - 1).0,
        vbr_packets(s, n).1 == first_to_leave(s).data + vbr_packets(without_first(s), n - 1).1,
{
    law_packet_leaves_in_time(s, false);
    let (s1, next) = next_packet(s, false);
    assert(MuxState { n_payload: s1.n_payload.wrapping_add(1), ..s1 } == without_first(s));
}

proof fn lemma_run_end(s: MuxState, n: int)
    requires
        n <= 0 || waiting(s) == 0,
    ensures
        vbr_packets(s, n).0 == s,
        vbr_packets(s, n).1 == Seq::<u8>::empty(),
{
    law_packet_leaves_in_time(s, false);
}

proof fn lemma_run_keeps_others(s: MuxState, n: int)
    requires
        s.n_payload + waiting(s) <= usize::MAX,
    ensures
        ({
            let t = vbr_packets(s, n).0;
            t == (MuxState {
                video: t.video,
                audio: t.audio,
                n_payload: (s.n_payload + leaving(s, n)) as usize,
                ..s
            })
        }),
    decreases n,
{
    if n > 0 && waiting(s) > 0 {
        lemma_run_step(s, n);
        lemma_run_keeps_others(without_first(s), n - 1);
        assert(leaving(without_first(s), n - 1) == leaving(s, n) - 1);
    } else {
        lemma_run_end(s, n);
    }
}

proof fn lemma_interleaved_next(
    s: MuxState,
    t: MuxState,
    p: PacketModel,
    out: Seq<u8>,
    rest: Seq<u8>,
    v: int,
    a: int,
)
    requires
        out == p.data + rest,
        ({
            if video_leads(s) {
                &&& p == s.video[0]
                &&& is_suffix(t.video, s.video.skip(1)) && is_suffix(t.audio, s.audio)
                &&& interleaved(rest, s.video.skip(1).take(v - 1), s.audio.take(a))
            } else {
                &&& s.audio.len() > 0 && p == s.audio[0]
                &&& is_suffix(t.video, s.video) && is_suffix(t.audio, s.audio.skip(1))
                &&& interleaved(rest, s.video.take(v), s.audio.skip(1).take(a - 1))
            }
        }),
        v == s.video.len() - t.video.len(),
        a == s.audio.len() - t.audio.len(),
    ensures
        is_suffix(t.video, s.video) && is_suffix(t.audio, s.audio),
        interleaved(out, s.video.take(v), s.audio.take(a)),
{
    let n = p.data.len() as int;
    assert(out.take(n) =~= p.data);
    assert(out.skip(n) =~= rest);
    if video_leads(s) {
        assert(s.video.skip(1).skip(v - 1) =~= s.video.skip(v));
        assert(s.video.take(v).skip(1) =~= s.video.skip(1).take(v - 1));
        assert(s.video.take(v)[0] == p);
    } else {
        assert(s.audio.skip(1).skip(a - 1) =~= s.audio.skip(a));
        assert(s.audio.take(a).skip(1) =~= s.audio.skip(1).take(a - 1));
        assert(s.audio.take(a)[0] == p);
    }
}

/// As packets come, the clock is set to the first clock reference that leaves: to that of
/// the packet that leaves first, where it has one.
pub proof fn law_clock_follows_first_reference(s: MuxState, n: int)
    requires
        n > 0,
        waiting(s) > 0,
    ensures
        ({
            let p = if video_leads(s) {
                s.video[0]
            } else {
                s.audio[0]
            };
            let (t, out, pcr) = vbr_packets(s, n);
            let f = clock_followed(t, pcr);
            &&& p.pcr is Some ==> pcr == p.pcr
            &&& p.pcr is Some && s.restamper is Some ==> f.restamper == Some(
                PcrRestamper { first_pcr_value: p.pcr, ..s.restamper->0 },
            )
            &&& pcr is None ==> f == t
            &&& f == (MuxState { restamper: f.restamper, ..t })
        }),
{
    law_packet_leaves_in_time(s, false);
    let (s1, next) = next_packet(s, false);
    let c = MuxState { n_payload: s1.n_payload.wrapping_add(1), ..s1 };
    lemma_vbr_keeps_clock(c, n - 1);
}

proof fn lemma_vbr_keeps_clock(s: MuxState, n: int)
    ensures
        vbr_packets(s, n).0.restamper == s.restamper,
    decreases n,
{
    if n > 0 {
        law_packet_leaves_in_time(s, false);
        let (s1, next) = next_packet(s, false);
        lemma_vbr_keeps_clock(MuxState { n_payload: s1.n_payload.wrapping_add(1), ..s1 }, n - 1);
    }
}

// ---- Frames ----

proof fn lemma_frame_filled(s: MuxState)
    ensures
        s.frame.is_prefix_of(frame_filled(s).frame),
    decreases
            if s.frame.len() >= 8192 {
                0
            } else {
                8192 - s.frame.len()
            },
{
    if s.frame.len() < 8192 {
        let (s1, run) = vbr_flushed(s);
        lemma_vbr_keeps_frame(s);
        if run is Some && run->0.len() > 0 {
            let next = MuxState { frame: s.frame + run->0, ..s1 };
            lemma_frame_filled(next);
            assert(s.frame.is_prefix_of(next.frame));
        }
    }
}

proof fn lemma_vbr_keeps_frame(s: MuxState)
    ensures
        vbr_flushed(s).0.frame == s.frame,
{
    reveal(tables_sent);
    reveal(tables_flushed);
    let (s1, table) = tables_sent(s, false);
    lemma_run_keeps_frame(s1, pkt_size_of(s) as int / 188 - table.len() / 188);
}

proof fn lemma_run_keeps_frame(s: MuxState, n: int)
    ensures
        vbr_packets(s, n).0.frame == s.frame,
    decreases n,
{
    if n > 0 {
        law_packet_leaves_in_time(s, false);
        let (s1, next) = next_packet(s, false);
        lemma_run_keeps_frame(MuxState { n_payload: s1.n_payload.wrapping_add(1), ..s1 }, n - 1);
    }
}

/// A frame has 8192 bytes. It begins with what was left of the last one, what it does not
/// take stays for the next one, and no frame leaves before there is enough for it.
pub proof fn law_frames_follow_each_other(s: MuxState)
    requires
        sending(s),
    ensures
        ({
            let (t, frame) = frame_flushed(s);
            match frame {
                Some(f) => f.len() == 8192 && s.frame.is_prefix_of(f + t.frame),
                None => t.frame.len() < 8192 && s.frame.is_prefix_of(t.frame),
            }
        }),
{
    lemma_frame_filled(s);
    let f = frame_filled(s);
    if f.frame.len() >= 8192 {
        assert(f.frame.take(8192) + f.frame.skip(8192) =~= f.frame);
    }
}

// ---- Reports ----

/// A report gives the bits of the packets of each kind since the last one, and counts anew;
/// it gives the size and the duration of what waits of video and of audio, and the
/// settings.
pub proof fn law_report_gives_figures(s: MuxState, fps: u64)
    requires
        s.n_psi * 1504 <= u64::MAX,
        s.n_payload * 1504 <= u64::MAX,
        s.n_null * 1504 <= u64::MAX,
        s.n_adjust * 1504 <= u64::MAX,
        s.video.len() * 188 <= usize::MAX,
        s.audio.len() * 188 <= usize::MAX,
        s.in_buff.len() <= usize::MAX,
    ensures
        ({
            let t = reported(s, fps);
            &&& t.stats.bitrate_psi == s.n_psi * 188 * 8
            &&& t.stats.bitrate_payload == s.n_payload * 188 * 8
            &&& t.stats.bitrate_null == s.n_null * 188 * 8
            &&& t.stats.bitrate_adjust_null == s.n_adjust * 188 * 8
            &&& t.n_psi == 0 && t.n_payload == 0 && t.n_null == 0 && t.n_adjust == 0
            &&& t.stats.v_buffer_stats.size == s.video.len() * 188
            &&& t.stats.a_buffer_stats.size == s.audio.len() * 188
            &&& t.stats.v_buffer_stats.duration == duration_of(s.video)
            &&& t.stats.a_buffer_stats.duration == duration_of(s.audio)
            &&& t.stats.in_buffer_len == s.in_buff.len()
            &&& t.stats.fps == fps
            &&& t.stats.buffer_duration_ms == s.buffer_ms
            &&& t.stats.jitter_ms == s.jitter_ms
            &&& t.stats.adjust_buf == s.adjust_buf
            &&& t.stats.dirty == if s.dirty {
                1u64
            } else {
                0
            }
            &&& forall|pid: u16| #[trigger]
                s.cc_errors.contains_key(pid) ==> t.stats.cc.contains_key(pid) && t.stats.cc[pid]
                    == s.cc_errors[pid]
            &&& t.cc_errors == s.cc_errors && t.video == s.video && t.audio == s.audio && t.in_buff
                == s.in_buff
            &&& t.stats.dts_drift == s.stats.dts_drift && t.stats.pcr_drift == s.stats.pcr_drift
        }),
{
}

/// How far the clock reference of a packet came in ahead of the clock is kept, in
/// milliseconds; behind it, it is negative.
pub proof fn law_reference_drift_is_kept(s: MuxState, data: Seq<u8>, pcr: u64)
    requires
        data.len() == 188,
        has_pcr(data),
        clock_of(s) == Some(pcr),
    ensures
        ({
            let t = clock_written(s, data).0;
            let d = (pcr_value(data) - pcr) % 2_576_980_377_600;
            &&& d < 1_288_490_188_800 ==> t.stats.pcr_drift == d / 27_000
            &&& d >= 1_288_490_188_800 ==> t.stats.pcr_drift == -((2_576_980_377_600 - d) / 27_000)
        }),
{
    reveal(clock_written);
    let old_pcr = pcr_in(data)->0;
    assert(old_pcr == pcr_value(data));
    lemma_sub_mod_noop(old_pcr as int, pcr as int, 2_576_980_377_600);
    lemma_mod_twice(old_pcr as int, 2_576_980_377_600);
    lemma_clock_in_cycle(s);
    assert(pcr_distance(old_pcr, pcr) == (old_pcr - pcr) % 2_576_980_377_600);
}

/// What is sent at once has the configured size, and that of a packet where none is
/// configured.
pub proof fn law_configured_size(s: MuxState)
    ensures
        s.output.pkt_size > 0 ==> pkt_size_of(s) == s.output.pkt_size,
        s.output.pkt_size == 0 ==> pkt_size_of(s) == 188,
{
}

} // verus!
