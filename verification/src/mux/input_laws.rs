//! What holds of the input of the packet handler: which packets wait, under which
//! times, and what goes through the descrambler before.

use crate::biss::{scrambled_part, Scrambled};
use crate::mux::out_buffer::PacketModel;
use crate::mux::reports::MuxNote;
use crate::mux::state::{
    aligned, consumed, dts_leap, first_aligned, first_sync, head_descrambled, is_audio, is_video,
    leap_noted, lemma_packet_keeps, media_counted, media_queued, processed, program_of, queued,
    run_from, size_checked, start_checked, synced, to_descramble, with_media_packet, with_packet,
    with_pat_packet, with_pmt_packet, with_sdt_packet, work_to_do, written, MuxState, Step,
};
use crate::packet::{discontinuity, has_pcr, pcr_value, pid_of, timestamps};
use vstd::prelude::*;

verus! {

/// Whether a packet of the input belongs to a stream of the program and to no table
/// that is looked at.
pub open spec fn is_media(s: MuxState, pkt: Seq<u8>) -> bool {
    let pid = pid_of(pkt) as u16;
    &&& pkt.len() == 188
    &&& pid != 0x0000 && pid != 0x0011 && pid != 0x1FFF
    &&& pid != s.output.programs@[0].pmt_pid || (s.pmt_ready && s.is_ready)
    &&& s.output.programs@[0].video_pids@.contains(pid)
        || s.output.programs@[0].audio_pids@.contains(pid)
}

/// Whether what waits is kept with a packet: while sending, it is thrown away where too
/// little or too much waits, and sending stops.
pub open spec fn keeps_waiting(s: MuxState, pkt: Seq<u8>) -> bool {
    s.check_size && s.is_ready ==> with_packet(s, pkt).is_ready
}

proof fn lemma_media_steps(s: MuxState, pkt: Seq<u8>)
    requires
        is_media(s, pkt),
    ensures
        with_packet(s, pkt) == size_checked(media_queued(media_counted(s, pkt), pkt)),
        keeps_waiting(s, pkt) ==> with_packet(s, pkt) == media_queued(media_counted(s, pkt), pkt),
{
    reveal(with_packet);
    lemma_counted(s, pkt);
    lemma_queued_flags(media_counted(s, pkt), pkt);
    reveal(size_checked);
}

pub proof fn lemma_counted(s: MuxState, pkt: Seq<u8>)
    ensures
        ({
            let t = media_counted(s, pkt);
            &&& t == (MuxState {
                last_cc: t.last_cc,
                cc_errors: t.cc_errors,
                reports: t.reports,
                ..s
            })
        }),
{
    reveal(media_counted);
}

pub proof fn lemma_queued_flags(s: MuxState, pkt: Seq<u8>)
    ensures
        ({
            let t = media_queued(s, pkt);
            &&& t == (MuxState {
                last_times: t.last_times,
                video: t.video,
                audio: t.audio,
                reports: t.reports,
                ..s
            })
        }),
{
    reveal(media_queued);
}

/// The queue of an entry that was appended behind others.
pub open spec fn appended(before: Seq<PacketModel>, after: Seq<PacketModel>) -> bool {
    after.len() == before.len() + 1 && after.drop_last() == before
}

/// A packet in which a unit with times starts waits under the times of that unit: it is
/// decoded at its decoding time and presented at its presentation time, whatever the
/// two are. It waits as it came in, in the queue of its stream, behind all others. The
/// stream is known by these times from then on.
pub proof fn law_unit_waits_under_its_times(s: MuxState, pkt: Seq<u8>)
    requires
        is_media(s, pkt),
        keeps_waiting(s, pkt),
        timestamps(pkt, pid_of(pkt)) is Some,
    ensures
        ({
            let t = with_packet(s, pkt);
            let pid = pid_of(pkt) as u16;
            let (pts, dts) = timestamps(pkt, pid_of(pkt))->0;
            &&& t.last_times == s.last_times.insert(pid, (pts as u64, dts as u64))
            &&& s.output.programs@[0].video_pids@.contains(pid) ==> {
                let p = t.video.last();
                &&& appended(s.video, t.video)
                &&& p.data == pkt && p.pid == pid && p.pusi
                &&& p.dts == dts && p.pts == pts
                &&& p.pcr == if has_pcr(pkt) {
                    Some(pcr_value(pkt) as u64)
                } else {
                    None
                }
            }
            &&& s.output.programs@[0].audio_pids@.contains(pid) ==> {
                let p = t.audio.last();
                &&& appended(s.audio, t.audio)
                &&& p.data == pkt && p.pid == pid && p.pusi && !p.discontinuity
                &&& p.dts == dts && p.pts == pts && p.pcr is None
            }
            &&& !s.output.programs@[0].video_pids@.contains(pid) ==> t.video == s.video
            &&& !s.output.programs@[0].audio_pids@.contains(pid) ==> t.audio == s.audio
        }),
{
    lemma_media_steps(s, pkt);
    lemma_counted(s, pkt);
    reveal(media_queued);
    let t = with_packet(s, pkt);
    assert(0 <= pid_of(pkt) < 0x2000);
    assert(t.video.len() > 0 && t.video.len() == s.video.len() + 1 ==> t.video.drop_last()
        =~= s.video);
    assert(t.audio.len() > 0 && t.audio.len() == s.audio.len() + 1 ==> t.audio.drop_last()
        =~= s.audio);
}

/// A packet of a stream in which no unit with times starts waits under the times that
/// the stream is known by; before the stream is known by any, it does not wait at all.
pub proof fn law_packet_waits_under_known_times(s: MuxState, pkt: Seq<u8>)
    requires
        is_media(s, pkt),
        keeps_waiting(s, pkt),
        timestamps(pkt, pid_of(pkt)) is None,
    ensures
        ({
            let t = with_packet(s, pkt);
            let pid = pid_of(pkt) as u16;
            let known = s.last_times.contains_key(pid);
            &&& t.last_times == s.last_times
            &&& known && s.output.programs@[0].video_pids@.contains(pid) ==> {
                let p = t.video.last();
                &&& appended(s.video, t.video)
                &&& p.data == pkt && p.pid == pid && !p.pusi
                &&& p.discontinuity == discontinuity(pkt)
                &&& (p.pts, p.dts) == s.last_times[pid]
                &&& p.pcr == if has_pcr(pkt) {
                    Some(pcr_value(pkt) as u64)
                } else {
                    None
                }
            }
            &&& known && s.output.programs@[0].audio_pids@.contains(pid) ==> {
                let p = t.audio.last();
                &&& appended(s.audio, t.audio)
                &&& p.data == pkt && p.pid == pid && !p.pusi && !p.discontinuity
                &&& (p.pts, p.dts) == s.last_times[pid]
            }
            &&& !known || !s.output.programs@[0].video_pids@.contains(pid) ==> t.video == s.video
            &&& !known || !s.output.programs@[0].audio_pids@.contains(pid) ==> t.audio == s.audio
        }),
{
    lemma_media_steps(s, pkt);
    lemma_counted(s, pkt);
    reveal(media_queued);
    let t = with_packet(s, pkt);
    assert(0 <= pid_of(pkt) < 0x2000);
    assert(t.video.len() > 0 && t.video.len() == s.video.len() + 1 ==> t.video.drop_last()
        =~= s.video);
    assert(t.audio.len() > 0 && t.audio.len() == s.audio.len() + 1 ==> t.audio.drop_last()
        =~= s.audio);
}

/// The packets of a unit are decoded and presented together: those that follow the one
/// in which it starts carry its two times.
pub proof fn law_unit_keeps_its_times(s: MuxState, first: Seq<u8>, next: Seq<u8>)
    requires
        is_media(s, first),
        is_media(s, next),
        pid_of(next) == pid_of(first),
        s.output.programs@[0].video_pids@.contains(pid_of(first) as u16),
        keeps_waiting(s, first),
        keeps_waiting(with_packet(s, first), next),
        timestamps(first, pid_of(first)) is Some,
        timestamps(next, pid_of(next)) is None,
    ensures
        ({
            let t = with_packet(with_packet(s, first), next);
            let n = t.video.len();
            let (pts, dts) = timestamps(first, pid_of(first))->0;
            &&& n >= 2 && t.video[n - 2].data == first && t.video[n - 1].data == next
            &&& t.video[n - 2].dts == dts && t.video[n - 1].dts == dts
            &&& t.video[n - 2].pts == pts && t.video[n - 1].pts == pts
        }),
{
    law_unit_waits_under_its_times(s, first);
    let s1 = with_packet(s, first);
    lemma_packet_keeps(s, first);
    lemma_media_steps(s, first);
    lemma_counted(s, first);
    lemma_queued_flags(media_counted(s, first), first);
    assert(is_media(s1, next));
    law_packet_waits_under_known_times(s1, next);
    let t = with_packet(s1, next);
    let n = t.video.len();
    assert(t.video[n - 2] == t.video.drop_last()[n - 2]);
    assert(s1.video[n - 2] == s1.video.last());
}

/// A packet of video starts anew where it says so itself, or where its decoding time
/// lies more than a second, and less than half a cycle, ahead of that of its stream.
pub proof fn law_leap_is_marked(s: MuxState, pkt: Seq<u8>)
    requires
        is_media(s, pkt),
        keeps_waiting(s, pkt),
        s.output.programs@[0].video_pids@.contains(pid_of(pkt) as u16),
        timestamps(pkt, pid_of(pkt)) is Some,
    ensures
        ({
            let pid = pid_of(pkt) as u16;
            let dts = (timestamps(pkt, pid_of(pkt))->0).1;
            let ahead = (dts as u64 - s.last_times[pid].1) % 0x2_0000_0000;
            with_packet(s, pkt).video.last().discontinuity == (discontinuity(pkt) || (
            s.last_times.contains_key(pid) && 90 * 1001 <= ahead < 0x1_0000_0000))
        }),
{
    lemma_media_steps(s, pkt);
    lemma_counted(s, pkt);
    reveal(media_queued);
    assert(0 <= pid_of(pkt) < 0x2000);
}

/// A leap of the decoding time is reported with its length in milliseconds, rounded down,
/// and with what waits of video and of audio; nothing else about the time is.
pub proof fn law_leap_is_reported(s: MuxState, pkt: Seq<u8>)
    requires
        is_media(s, pkt),
        keeps_waiting(s, pkt),
        timestamps(pkt, pid_of(pkt)) is Some,
        s.video.len() * 188 <= usize::MAX,
        s.audio.len() * 188 <= usize::MAX,
    ensures
        ({
            let t = with_packet(s, pkt);
            let pid = pid_of(pkt) as u16;
            let dts = (timestamps(pkt, pid_of(pkt))->0).1;
            let ahead = (dts as u64 - s.last_times[pid].1) % 0x2_0000_0000;
            let leap = s.last_times.contains_key(pid) && 90 * 1001 <= ahead < 0x1_0000_0000;
            let before = media_counted(s, pkt).reports;
            &&& leap ==> t.reports == before.push(
                MuxNote::Leap {
                    pid,
                    ms: (ahead / 90) as u64,
                    video: (s.video.len() * 188) as usize,
                    audio: (s.audio.len() * 188) as usize,
                },
            )
            &&& !leap ==> t.reports == before
        }),
{
    lemma_media_steps(s, pkt);
    lemma_counted(s, pkt);
    reveal(media_queued);
    assert(0 <= pid_of(pkt) < 0x2000);
}

/// Whether a packet says itself that its stream starts anew.
pub open spec fn starts_anew(pkt: Seq<u8>) -> bool {
    (pkt[3] / 16) % 4 >= 2 && pkt[4] >= 1 && pkt[5] >= 0x80
}

/// A packet of a stream with a payload has to bear the number behind that of the last one,
/// in a circle of 16; else a loss is counted for its stream. Of a packet that says that its
/// stream starts anew, or has no payload, no number is expected, and none is taken from it.
pub proof fn law_loss_of_packets(s: MuxState, pkt: Seq<u8>)
    requires
        is_media(s, pkt),
        s.cc_errors.contains_key(pid_of(pkt) as u16) ==> s.cc_errors[pid_of(pkt) as u16]
            < usize::MAX,
    ensures
        ({
            let t = with_packet(s, pkt);
            let pid = pid_of(pkt) as u16;
            let numbered = (pkt[3] / 16) % 2 == 1 && !starts_anew(pkt);
            let lost = numbered && s.last_cc.contains_key(pid) && pkt[3] % 16 != (s.last_cc[pid]
                + 1) % 16;
            let counted = if s.cc_errors.contains_key(pid) {
                s.cc_errors[pid] as int
            } else {
                0
            };
            &&& t.last_cc == if numbered {
                s.last_cc.insert(pid, pkt[3] % 16)
            } else {
                s.last_cc
            }
            &&& t.cc_errors == if lost {
                s.cc_errors.insert(pid, (counted + 1) as usize)
            } else {
                s.cc_errors
            }
        }),
{
    lemma_media_steps(s, pkt);
    reveal(media_counted);
    reveal(size_checked);
    lemma_queued_flags(media_counted(s, pkt), pkt);
    assert(0 <= pid_of(pkt) < 0x2000);
}

// ---- The descrambler ----

/// Where the payload of a packet begins: behind the header, or behind the adaptation
/// field where there is one.
pub open spec fn payload_offset(pkt: Seq<u8>) -> int {
    if (pkt[3] / 16) % 4 == 3 {
        5 + pkt[4]
    } else {
        4
    }
}

/// Whether the payload of a packet is scrambled: it is marked so, there is one, and it
/// is long enough for the cipher.
pub open spec fn is_hidden(pkt: Seq<u8>) -> bool {
    pkt[3] >= 0x80 && (pkt[3] / 16) % 2 == 1 && payload_offset(pkt) <= 180
}

/// Whether a packet belongs to a configured stream.
pub open spec fn is_configured(s: MuxState, pkt: Seq<u8>) -> bool {
    s.output.programs@[0].video_pids@.contains(pid_of(pkt) as u16)
        || s.output.programs@[0].audio_pids@.contains(pid_of(pkt) as u16)
}

/// Whether nothing that waits is scrambled.
pub open spec fn waits_in_clear(s: MuxState) -> bool {
    &&& forall|i: int| 0 <= i < s.video.len() ==> !is_hidden((#[trigger] s.video[i]).data)
    &&& forall|i: int| 0 <= i < s.audio.len() ==> !is_hidden((#[trigger] s.audio[i]).data)
}

proof fn lemma_hidden_is_scrambled(pkt: Seq<u8>)
    requires
        pkt.len() == 188,
        pkt[0] == 0x47,
    ensures
        is_hidden(pkt) == scrambled_part(pkt) is Some,
        is_hidden(pkt) ==> scrambled_part(pkt) == Some(
            Scrambled { offset: payload_offset(pkt) as usize, odd: pkt[3] >= 0xC0 },
        ),
{
}

/// With a key, a packet of a configured stream, of video or of audio, whose payload is
/// scrambled is not worked on before it has been through the descrambler: the handler
/// asks for it, saying where the payload begins and which of the two keys it needs, and
/// nothing else has changed.
pub proof fn law_scrambled_packet_is_held(s: MuxState, now: i64)
    requires
        s.biss is Some,
        s.in_buff.len() >= 188,
        s.in_buff[0] == 0x47,
        !(s.is_async && s.is_ready),
        is_configured(s, s.in_buff.take(188)),
        is_hidden(s.in_buff.take(188)),
    ensures
        ({
            let pkt = s.in_buff.take(188);
            run_from(s, 0, false, now) == (
                s,
                Step::Descramble(
                    Scrambled { offset: payload_offset(pkt) as usize, odd: pkt[3] >= 0xC0 },
                ),
            )
        }),
{
    reveal(to_descramble);
    let pkt = s.in_buff.take(188);
    assert(s.in_buff.subrange(0, 188) =~= pkt);
    assert(s.in_buff.skip(0) =~= s.in_buff);
    assert(consumed(s, 0) =~= s);
    lemma_hidden_is_scrambled(pkt);
}

/// What waits after a packet waited before, or is the packet itself, and then it belongs
/// to a configured stream.
pub open spec fn waits_no_more_than(s: MuxState, t: MuxState, pkt: Seq<u8>) -> bool {
    &&& t.biss == s.biss
    &&& forall|i: int|
        0 <= i < t.video.len() ==> ((i < s.video.len() && #[trigger] t.video[i] == s.video[i]) || (
        t.video[i].data == pkt && is_configured(s, pkt)))
    &&& forall|i: int|
        0 <= i < t.audio.len() ==> ((i < s.audio.len() && #[trigger] t.audio[i] == s.audio[i]) || (
        t.audio[i].data == pkt && is_configured(s, pkt)))
}

proof fn lemma_media_adds(s: MuxState, pkt: Seq<u8>)
    ensures
        waits_no_more_than(s, with_media_packet(s, pkt), pkt),
{
    lemma_counted(s, pkt);
    let s1 = media_counted(s, pkt);
    lemma_queued_adds(s1, pkt);
    let s2 = media_queued(s1, pkt);
    assert(waits_no_more_than(s, s2, pkt));
    reveal(size_checked);
}

proof fn lemma_queued_adds(s: MuxState, pkt: Seq<u8>)
    ensures
        waits_no_more_than(s, media_queued(s, pkt), pkt),
{
    reveal(media_queued);
}

proof fn lemma_tables_add(s: MuxState, pkt: Seq<u8>)
    ensures
        waits_no_more_than(s, with_pat_packet(s, pkt), pkt),
        waits_no_more_than(s, with_sdt_packet(s, pkt), pkt),
        waits_no_more_than(s, with_pmt_packet(s, pkt), pkt),
{
}

/// A packet of the input adds at most itself to what waits, and only if it belongs to a
/// configured stream.
pub proof fn law_packet_adds_itself(s: MuxState, pkt: Seq<u8>)
    ensures
        waits_no_more_than(s, with_packet(s, pkt), pkt),
{
    reveal(with_packet);
    lemma_media_adds(s, pkt);
    lemma_tables_add(s, pkt);
}

proof fn lemma_start_keeps_clear(s: MuxState, now: i64)
    requires
        waits_in_clear(s),
    ensures
        waits_in_clear(start_checked(s, now)),
        start_checked(s, now).output == s.output,
{
    reveal(start_checked);
    reveal(crate::mux::state::clock_resynced);
}

/// With a key, whatever runs over the input, no packet of a configured stream that is
/// scrambled ever waits: what waits is in the clear, as long as the packet that comes
/// back from the descrambler is. And the descrambler is asked for scrambled packets of
/// configured streams only, each at the head of the input.
pub proof fn law_only_clear_media_waits(s: MuxState, pos: int, head_done: bool, now: i64)
    requires
        0 <= pos,
        s.biss is Some,
        waits_in_clear(s),
        head_done && pos + 188 <= s.in_buff.len() ==> !is_hidden(
            s.in_buff.subrange(pos, pos + 188),
        ),
    ensures
        waits_in_clear(run_from(s, pos, head_done, now).0),
        run_from(s, pos, head_done, now).1 matches Step::Descramble(part) ==> {
            let t = run_from(s, pos, head_done, now).0;
            let pkt = t.in_buff.take(188);
            &&& t.in_buff.len() >= 188
            &&& is_hidden(pkt) && is_configured(s, pkt)
            &&& part == (Scrambled {
                offset: payload_offset(pkt) as usize,
                odd: pkt[3] >= 0xC0,
            })
        },
    decreases s.in_buff.len() - pos,
{
    reveal(to_descramble);
    if pos + 188 > s.in_buff.len() || (s.is_async && s.is_ready
        && !crate::mux::state::buffer_drained(s)) {
        lemma_start_keeps_clear(consumed(s, pos), now);
    } else if s.in_buff[pos] == 0x47 {
        let pkt = s.in_buff.subrange(pos, pos + 188);
        lemma_hidden_is_scrambled(pkt);
        if to_descramble(s, pkt) is Some && !head_done {
            assert(consumed(s, pos).in_buff.take(188) =~= pkt);
        } else {
            law_packet_adds_itself(s, pkt);
            lemma_packet_keeps(s, pkt);
            let t = MuxState { in_buff: s.in_buff, ..with_packet(s, pkt) };
            assert forall|i: int| 0 <= i < t.video.len() implies !is_hidden(
                (#[trigger] t.video[i]).data,
            ) by {
                if i < s.video.len() && t.video[i] == s.video[i] {
                    assert(!is_hidden(s.video[i].data));
                }
            }
            assert forall|i: int| 0 <= i < t.audio.len() implies !is_hidden(
                (#[trigger] t.audio[i]).data,
            ) by {
                if i < s.audio.len() && t.audio[i] == s.audio[i] {
                    assert(!is_hidden(s.audio[i].data));
                }
            }
            law_only_clear_media_waits(t, pos + 188, false, now);
        }
    }
}

/// The packet that comes back from the descrambler carries the plain payload where the
/// scrambled one was, is no longer marked as scrambled, and is otherwise the same; what
/// follows it in the input is left alone.
pub proof fn law_plain_payload_is_taken(s: MuxState, plain: Seq<u8>)
    requires
        s.in_buff.len() >= 188,
        s.in_buff[0] == 0x47,
        is_hidden(s.in_buff.take(188)),
        plain.len() == 188 - payload_offset(s.in_buff.take(188)),
    ensures
        ({
            let t = head_descrambled(s, Some(plain));
            let at = payload_offset(s.in_buff.take(188));
            &&& t == (MuxState { in_buff: t.in_buff, ..s })
            &&& t.in_buff.len() == s.in_buff.len()
            &&& t.in_buff.subrange(at, 188) == plain
            &&& t.in_buff.skip(188) == s.in_buff.skip(188)
            &&& t.in_buff[3] < 0x40 && t.in_buff[3] == s.in_buff[3] % 64
            &&& forall|i: int| 0 <= i < at && i != 3 ==> t.in_buff[i] == s.in_buff[i]
            &&& !is_hidden(t.in_buff.take(188))
        }),
{
    lemma_hidden_is_scrambled(s.in_buff.take(188));
    let t = head_descrambled(s, Some(plain));
    let at = payload_offset(s.in_buff.take(188));
    assert(t.in_buff.subrange(at, 188) =~= plain);
    assert(t.in_buff.skip(188) =~= s.in_buff.skip(188));
    assert(t.in_buff.take(188)[3] == t.in_buff[3]);
}

// ---- One packet after the other ----

/// The state with another input.
pub open spec fn fed_with(s: MuxState, b: Seq<u8>) -> MuxState {
    MuxState { in_buff: b, ..s }
}

proof fn lemma_counted_ignores_input(s: MuxState, pkt: Seq<u8>, b: Seq<u8>)
    ensures
        media_counted(fed_with(s, b), pkt) == fed_with(media_counted(s, pkt), b),
{
    reveal(media_counted);
}

proof fn lemma_leap_ignores_input(s: MuxState, pid: u16, dts: u64, b: Seq<u8>)
    ensures
        leap_noted(fed_with(s, b), pid, dts) == fed_with(leap_noted(s, pid, dts), b),
{
}

proof fn lemma_entry_ignores_input(
    s: MuxState,
    pkt: Seq<u8>,
    pid: u16,
    pusi: bool,
    leap: bool,
    b: Seq<u8>,
)
    ensures
        queued(fed_with(s, b), pkt, pid, pusi, leap) == fed_with(
            queued(s, pkt, pid, pusi, leap),
            b,
        ),
{
}

proof fn lemma_queued_ignores_input(s: MuxState, pkt: Seq<u8>, b: Seq<u8>)
    ensures
        media_queued(fed_with(s, b), pkt) == fed_with(media_queued(s, pkt), b),
{
    reveal(media_queued);
    let pid = pid_of(pkt) as u16;
    let announced = discontinuity(pkt);
    match timestamps(pkt, pid as int) {
        Some((pts, dts)) => {
            let leap = dts_leap(s, pid, dts as u64);
            lemma_leap_ignores_input(s, pid, dts as u64, b);
            let noted = leap_noted(s, pid, dts as u64);
            let times = s.last_times.insert(pid, (pts as u64, dts as u64));
            let timed = MuxState { last_times: times, ..noted };
            assert(fed_with(timed, b) == (MuxState { last_times: times, ..fed_with(noted, b) }));
            assert(dts_leap(fed_with(s, b), pid, dts as u64) == leap);
            lemma_entry_ignores_input(timed, pkt, pid, true, announced || leap, b);
        },
        None => {
            lemma_entry_ignores_input(s, pkt, pid, false, announced, b);
        },
    }
}

proof fn lemma_size_ignores_input(s: MuxState, b: Seq<u8>)
    ensures
        size_checked(fed_with(s, b)) == fed_with(size_checked(s), b),
{
    reveal(size_checked);
}

proof fn lemma_media_ignores_input(s: MuxState, pkt: Seq<u8>, b: Seq<u8>)
    ensures
        with_media_packet(fed_with(s, b), pkt) == fed_with(with_media_packet(s, pkt), b),
{
    lemma_counted_ignores_input(s, pkt, b);
    lemma_queued_ignores_input(media_counted(s, pkt), pkt, b);
    lemma_size_ignores_input(media_queued(media_counted(s, pkt), pkt), b);
}

proof fn lemma_pat_ignores_input(s: MuxState, pkt: Seq<u8>, b: Seq<u8>)
    ensures
        with_pat_packet(fed_with(s, b), pkt) == fed_with(with_pat_packet(s, pkt), b),
{
}

proof fn lemma_sdt_ignores_input(s: MuxState, pkt: Seq<u8>, b: Seq<u8>)
    ensures
        with_sdt_packet(fed_with(s, b), pkt) == fed_with(with_sdt_packet(s, pkt), b),
{
}

proof fn lemma_pmt_ignores_input(s: MuxState, pkt: Seq<u8>, b: Seq<u8>)
    ensures
        with_pmt_packet(fed_with(s, b), pkt) == fed_with(with_pmt_packet(s, pkt), b),
{
}

proof fn lemma_packet_ignores_input(s: MuxState, pkt: Seq<u8>, b: Seq<u8>)
    ensures
        with_packet(fed_with(s, b), pkt) == fed_with(with_packet(s, pkt), b),
{
    reveal(with_packet);
    let pid = pid_of(pkt) as u16;
    if pid == 0x1FFF {
    } else if pid == 0x0000 {
        lemma_pat_ignores_input(s, pkt, b);
    } else if pid == 0x0011 {
        lemma_sdt_ignores_input(s, pkt, b);
    } else if pid == program_of(s).pmt_pid && (!s.pmt_ready || !s.is_ready) {
        lemma_pmt_ignores_input(s, pkt, b);
    } else if is_audio(s, pid) || is_video(s, pid) {
        lemma_media_ignores_input(s, pkt, b);
    }
}

proof fn lemma_need_ignores_input(s: MuxState, pkt: Seq<u8>, b: Seq<u8>)
    ensures
        to_descramble(fed_with(s, b), pkt) == to_descramble(s, pkt),
{
    reveal(to_descramble);
}

proof fn lemma_run_shift(s: MuxState, k: int, pos: int, head_done: bool, now: i64)
    requires
        0 <= k,
        0 <= pos,
        k + pos <= s.in_buff.len(),
    ensures
        run_from(s, k + pos, head_done, now) == run_from(consumed(s, k), pos, head_done, now),
    decreases s.in_buff.len() - k - pos,
{
    let b = s.in_buff.skip(k);
    let t = fed_with(s, b);
    assert(t == consumed(s, k));
    assert(b.skip(pos) =~= s.in_buff.skip(k + pos));
    assert(consumed(t, pos) == consumed(s, k + pos));
    if k + pos + 188 <= s.in_buff.len() {
        let pkt = s.in_buff.subrange(k + pos, k + pos + 188);
        assert(b.subrange(pos, pos + 188) =~= pkt);
        lemma_need_ignores_input(s, pkt, b);
        lemma_packet_ignores_input(s, pkt, b);
        let s1 = fed_with(with_packet(s, pkt), s.in_buff);
        let t1 = fed_with(with_packet(t, pkt), b);
        assert(consumed(s1, k) == t1);
        lemma_run_shift(s1, k, pos + 188, false, now);
    }
}

/// The input is worked on one packet after the other: a packet that the descrambler is
/// not needed for is worked on once, and then what follows it is, as if the packet had
/// never been there.
pub proof fn law_packets_are_taken_in_order(s: MuxState, pkt: Seq<u8>, rest: Seq<u8>, now: i64)
    requires
        s.in_buff == pkt + rest,
        pkt.len() == 188,
        pkt[0] == 0x47,
        !(s.is_async && s.is_ready),
        s.biss is None || !is_configured(s, pkt) || !is_hidden(pkt),
    ensures
        run_from(s, 0, false, now) == run_from(
            MuxState { in_buff: rest, ..with_packet(s, pkt) },
            0,
            false,
            now,
        ),
{
    reveal(to_descramble);
    assert(s.in_buff.subrange(0, 188) =~= pkt);
    lemma_hidden_is_scrambled(pkt);
    lemma_packet_keeps(s, pkt);
    let t = MuxState { in_buff: s.in_buff, ..with_packet(s, pkt) };
    lemma_run_shift(t, 188, 0, false, now);
    assert(s.in_buff.skip(188) =~= rest);
    assert(consumed(t, 188) =~= MuxState { in_buff: rest, ..with_packet(s, pkt) });
}

/// Less than a packet stays in the input until the rest of it comes.
pub proof fn law_rest_is_kept(s: MuxState, now: i64)
    requires
        s.in_buff.len() < 188,
    ensures
        run_from(s, 0, false, now).1 == Step::Idle,
        run_from(s, 0, false, now).0.in_buff == s.in_buff,
        s.is_ready ==> run_from(s, 0, false, now).0 == s,
{
    assert(s.in_buff.skip(0) =~= s.in_buff);
    assert(consumed(s, 0) =~= s);
    reveal(start_checked);
    reveal(crate::mux::state::clock_resynced);
}

/// Where no packet starts although one should, nothing is dropped: the place where
/// packets start is looked for again from there.
pub proof fn law_lost_step_drops_nothing(s: MuxState, now: i64)
    requires
        s.in_buff.len() >= 188,
        s.in_buff[0] != 0x47,
        !(s.is_async && s.is_ready),
    ensures
        run_from(s, 0, false, now) == (MuxState { is_sync: false, ..s }, Step::Idle),
{
    assert(s.in_buff.skip(0) =~= s.in_buff);
    assert(consumed(s, 0) =~= s);
}

/// While the configured duration of video waits to be sent, an output that is paced
/// takes nothing in; as soon as less waits, it does.
pub proof fn law_full_buffer_takes_nothing_in(s: MuxState, now: i64)
    requires
        s.is_async,
        s.is_ready,
        s.is_sync,
        s.video.len() > 0,
        ({
            let ahead = (s.video.last().dts - s.video[0].dts) % 0x2_0000_0000;
            0 < ahead < 0x1_0000_0000 && ahead / 90 >= s.buffer_ms
        }),
    ensures
        processed(s, false, now) == (s, Step::Idle),
        !work_to_do(s),
{
    assert(s.in_buff.skip(0) =~= s.in_buff);
    assert(consumed(s, 0) =~= s);
    reveal(start_checked);
}

/// A chunk of the input is put behind what is there already; where both together would
/// be 50 MiB or more, all of it is thrown away, and the place where packets start is
/// looked for again.
pub proof fn law_chunk_is_taken_in(s: MuxState, chunk: Seq<u8>, now: i64)
    requires
        !s.dirty,
        s.is_async,
    ensures
        ({
            let (t, step) = written(s, chunk, now);
            &&& step == Step::Idle
            &&& s.in_buff.len() + chunk.len() < 50 * 1024 * 1024 ==> t == (MuxState {
                in_buff: s.in_buff + chunk,
                ..s
            })
            &&& s.in_buff.len() + chunk.len() >= 50 * 1024 * 1024 ==> t.in_buff.len() == 0
                && !t.is_sync && t.video == s.video && t.audio == s.audio && t.is_ready
                == s.is_ready
        }),
        written(MuxState { is_async: false, ..s }, chunk, now) == processed(
            MuxState { is_async: false, ..written(s, chunk, now).0 },
            false,
            now,
        ),
{
}

// ---- Synchronisation ----

/// Whether three packets in a row can start at a place of what has come in.
pub open spec fn three_start(b: Seq<u8>, i: int) -> bool {
    &&& 0 <= i
    &&& i + 3 * 188 <= b.len()
    &&& b[i] == 0x47 && b[i + 188] == 0x47 && b[i + 2 * 188] == 0x47
}

/// The input is in step just where three packets in a row start in it. What is dropped
/// before is of no use: whatever comes in behind it, no three packets in a row start there.
/// While too little has come in to tell, nothing is dropped.
pub proof fn law_only_useless_input_is_dropped(b: Seq<u8>, more: Seq<u8>)
    ensures
        synced(b).0 <==> exists|i: int| #[trigger] three_start(b, i),
        b.len() < 3 * 188 ==> synced(b).1 == b,
        exists|k: int|
            0 <= k <= b.len() && synced(b).1 == b.skip(k) && forall|j: int|
                0 <= j < k ==> !#[trigger] three_start(b + more, j),
{
    if b.len() < 564 {
        assert(b.skip(0) =~= b);
    } else {
        lemma_aligned(b, 0);
        match first_aligned(b, 0) {
            Some(k) => {
                assert(three_start(b, k));
                assert forall|j: int| 0 <= j < k implies !#[trigger] three_start(b + more, j) by {
                    assert(!three_start(b, j));
                }
                assert(synced(b).1 == b.skip(k));
            },
            None => {
                let k = first_sync(b, b.len() - 563);
                lemma_sync_byte(b, b.len() - 563);
                assert forall|j: int| 0 <= j < k implies !#[trigger] three_start(b + more, j) by {
                    if j + 564 <= b.len() {
                        assert(!three_start(b, j));
                    } else {
                        assert((b + more)[j] == b[j]);
                    }
                }
                assert(synced(b).1 == b.skip(k));
            },
        }
    }
}

proof fn lemma_aligned(b: Seq<u8>, i: int)
    requires
        0 <= i,
    ensures
        match first_aligned(b, i) {
            Some(k) => i <= k && three_start(b, k) && forall|j: int|
                i <= j < k ==> !#[trigger] three_start(b, j),
            None => forall|j: int| i <= j ==> !#[trigger] three_start(b, j),
        },
    decreases b.len() - i,
{
    if i + 564 <= b.len() && !aligned(b, i) {
        lemma_aligned(b, i + 1);
    }
}

proof fn lemma_sync_byte(b: Seq<u8>, i: int)
    requires
        0 <= i <= b.len(),
    ensures
        i <= first_sync(b, i) <= b.len(),
        forall|j: int| i <= j < first_sync(b, i) ==> b[j] != 0x47,
    decreases b.len() - i,
{
    if i < b.len() && b[i] != 0x47 {
        lemma_sync_byte(b, i + 1);
    }
}

} // verus!
