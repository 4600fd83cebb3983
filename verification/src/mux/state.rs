//! What the packet handler does, as steps of a state.

use crate::biss::{descrambled, scrambled_part, Biss1Descrambler, BissError, Scrambled};
use crate::bits::be16;
use crate::clock::{
    dts_delta, dts_distance, dts_forward_ms, is_dts_after, is_pcr_after, pcr_delta, pcr_reduced,
};
use crate::config::{Output, Program, CA_FLAG_UNSCRAMBLED};
use crate::mux::out_buffer::{
    duration_of, pcr_in, size_of_packets, unit_count, unit_span_of, PacketModel,
};
use crate::mux::reports::{shown_size, MuxNote};
use crate::mux::restamper::{pcr_now, restamped, resynced, PcrRestamper};
use crate::packet::{
    counter_of, discontinuity, has_discontinuity_flag, null_packet, payload_start, pid_of, timestamps,
    with_next_counter, TS_SYNC_BYTE,
};
use crate::psi::header::cached_counter;
use crate::psi::pat::{pat_programs, patched_pat, same_programs, PatInfo};
use crate::psi::pmt::{patched_pmt, pmt_changed, pmt_of, PmtModel};
use crate::psi::sdt::{prepared_sdt, sdt_services, SdtModel};
use crate::psi::section::{map_reassembled, section_packet};
use crate::psi::time::truncated;
use crate::status::{buffer_stats_of, packet_bits, StatsModel};
use crate::text::trimmed;
use vstd::prelude::*;

verus! {

/// A command about the state of an output that goes to the administration.
#[derive(Debug, Clone, Copy, PartialEq, Eq, Structural)]
pub enum Cmd {
    MarkDirty,
    UnMarkDirty,
}

/// The word that stands for a command.
pub open spec fn cmd_word(c: Cmd) -> Seq<char> {
    match c {
        Cmd::MarkDirty => "mark_dirty"@,
        Cmd::UnMarkDirty => "unmark_dirty"@,
    }
}

impl Cmd {
    /// The word that stands for it.
    pub fn as_str(&self) -> (r: &'static str)
        ensures
            r@ == cmd_word(*self),
    {
        match self {
            Cmd::MarkDirty => "mark_dirty",
            Cmd::UnMarkDirty => "unmark_dirty",
        }
    }
}

/// Frames in an interval of the 90 kHz clock.
#[derive(Debug, Clone, Copy, PartialEq, Eq, Structural)]
pub struct FrameRate {
    pub intervals: u64,
    pub ticks: u64,
}

/// What has to happen before the handler can go on.
#[derive(Debug, Clone, Copy, PartialEq, Eq, Structural)]
pub enum Step {
    /// Nothing.
    Idle,
    /// The payload of the packet at the head of the input is to be descrambled.
    Descramble(Scrambled),
}

/// The state of a packet handler.
#[verifier::ext_equal]
pub struct MuxState {
    pub output: Output,
    pub is_ready: bool,
    pub is_sync: bool,
    pub is_async: bool,
    pub in_buff: Seq<u8>,
    pub video: Seq<PacketModel>,
    pub audio: Seq<PacketModel>,
    pub frame: Seq<u8>,
    pub check_size: bool,
    pub min_size: u128,
    pub max_size: u128,
    pub last_times: Map<u16, (u64, u64)>,
    pub last_cc: Map<u16, u8>,
    pub cc_errors: Map<u16, usize>,
    pub buffer_ms: u64,
    pub jitter_ms: u64,
    pub adjust_buf: u64,
    pub pat_info: Seq<PatInfo>,
    pub pmt_info: Option<PmtModel>,
    pub pat: Seq<u8>,
    pub pmt: Seq<u8>,
    pub sdt: Seq<u8>,
    pub pat_ready: bool,
    pub pmt_ready: bool,
    pub sdt_ready: bool,
    pub pending: Map<u16, Seq<u8>>,
    pub insert_pat: Option<u64>,
    pub insert_pmt: Option<u64>,
    pub insert_sdt: Option<u64>,
    pub n_psi: usize,
    pub n_null: usize,
    pub n_payload: usize,
    pub n_adjust: usize,
    pub fps: Option<FrameRate>,
    pub restamper: Option<PcrRestamper>,
    pub biss: Option<Biss1Descrambler>,
    pub stats: StatsModel,
    pub dirty: bool,
    pub reports: Seq<MuxNote>,
}

/// The program that is sent.
pub open spec fn program_of(s: MuxState) -> Program {
    s.output.programs@[0]
}

pub open spec fn is_video(s: MuxState, pid: u16) -> bool {
    program_of(s).video_pids@.contains(pid)
}

pub open spec fn is_audio(s: MuxState, pid: u16) -> bool {
    program_of(s).audio_pids@.contains(pid)
}

/// The clock of what is sent.
pub open spec fn clock_of(s: MuxState) -> Option<u64> {
    match s.restamper {
        Some(r) => pcr_now(r),
        None => None,
    }
}

/// A count of 0 for each of these streams.
pub open spec fn zero_counts(pids: Seq<u16>) -> Map<u16, usize> {
    Map::new(|pid: u16| pids.contains(pid), |pid: u16| 0usize)
}

/// A count of 0 for each stream of these programs.
pub open spec fn program_counts(programs: Seq<Program>) -> Map<u16, usize>
    decreases programs.len(),
{
    if programs.len() == 0 {
        Map::empty()
    } else {
        program_counts(programs.drop_last()).union_prefer_right(
            zero_counts(programs.last().audio_pids@),
        ).union_prefer_right(zero_counts(programs.last().video_pids@))
    }
}

/// The jitter that is allowed: what is configured, between 30 ms and 3 s.
pub open spec fn allowed_jitter(configured: int) -> u64 {
    if configured < 30 {
        30
    } else if configured > 3000 {
        3000
    } else {
        configured as u64
    }
}

/// The state of a handler that has seen nothing yet. Settings are those of the
/// last program.
pub open spec fn initial_state(
    output: Output,
    biss: Option<Biss1Descrambler>,
    refused: Option<BissError>,
    stats: StatsModel,
) -> MuxState {
    let programs = output.programs@;
    let none = programs.len() == 0;
    MuxState {
        output,
        is_ready: false,
        is_sync: false,
        is_async: false,
        in_buff: Seq::empty(),
        video: Seq::empty(),
        audio: Seq::empty(),
        frame: Seq::empty(),
        check_size: false,
        min_size: 0,
        max_size: 0,
        last_times: Map::empty(),
        last_cc: Map::empty(),
        cc_errors: program_counts(programs),
        buffer_ms: if none || programs.last().buffer_duration == 0 {
            5000
        } else {
            programs.last().buffer_duration as u64
        },
        jitter_ms: allowed_jitter(
            if none {
                0
            } else {
                programs.last().jitter as int
            },
        ),
        adjust_buf: if none {
            0
        } else {
            programs.last().adjust_buf as u64
        },
        pat_info: Seq::empty(),
        pmt_info: None,
        pat: Seq::new(188, |i: int| 0u8),
        pmt: Seq::new(188, |i: int| 0u8),
        sdt: Seq::new(188, |i: int| 0u8),
        pat_ready: false,
        pmt_ready: false,
        sdt_ready: false,
        pending: Map::empty(),
        insert_pat: None,
        insert_pmt: None,
        insert_sdt: None,
        n_psi: 0,
        n_null: 0,
        n_payload: 0,
        n_adjust: 0,
        fps: None,
        restamper: if output.proxy {
            None
        } else {
            Some(
                PcrRestamper {
                    target_bitrate_bps: output.cbr as u64,
                    total_packets_sent: 0,
                    first_pcr_value: None,
                },
            )
        },
        biss,
        stats: StatsModel { cc: stats.cc.union_prefer_right(program_counts(programs)), ..stats },
        dirty: false,
        reports: match refused {
            Some(e) => seq![MuxNote::KeyRefused(e)],
            None => Seq::empty(),
        },
    }
}

// ---- Synchronisation ----

/// Whether three packets in a row start here.
pub open spec fn aligned(b: Seq<u8>, i: int) -> bool {
    i + 564 <= b.len() && b[i] == TS_SYNC_BYTE && b[i + 188] == TS_SYNC_BYTE && b[i + 376]
        == TS_SYNC_BYTE
}

/// The first place from `i` on where three packets in a row start.
pub open spec fn first_aligned(b: Seq<u8>, i: int) -> Option<int>
    decreases b.len() - i,
{
    if i + 564 > b.len() {
        None
    } else if aligned(b, i) {
        Some(i)
    } else {
        first_aligned(b, i + 1)
    }
}

/// The first place from `i` on that holds a sync byte, else the end.
pub open spec fn first_sync(b: Seq<u8>, i: int) -> int
    decreases b.len() - i,
{
    if i >= b.len() {
        b.len() as int
    } else if b[i] == TS_SYNC_BYTE {
        i
    } else {
        first_sync(b, i + 1)
    }
}

/// Whether a buffer can be synchronised, and what is left of it: from the first
/// place where three packets start, or else from the first sync byte that is
/// too near to the end to tell. A buffer of less than three packets stays.
pub open spec fn synced(b: Seq<u8>) -> (bool, Seq<u8>) {
    if b.len() < 564 {
        (false, b)
    } else {
        match first_aligned(b, 0) {
            Some(i) => (true, b.skip(i)),
            None => (false, b.skip(first_sync(b, b.len() - 563))),
        }
    }
}

// ---- Buffers ----

/// The bytes that wait.
pub open spec fn waiting_size(s: MuxState) -> int {
    size_of_packets(s.video.len() as int) + size_of_packets(s.audio.len() as int)
}

/// Whether less video waits than the configured duration.
pub open spec fn buffer_drained(s: MuxState) -> bool {
    duration_of(s.video) < s.buffer_ms
}

pub open spec fn buffer_full(s: MuxState) -> bool {
    waiting_size(s) > s.max_size || duration_of(s.video) > 2 * s.buffer_ms
}

pub open spec fn buffer_empty(s: MuxState) -> bool {
    waiting_size(s) < s.min_size
}

/// Something is reported.
pub open spec fn noted(s: MuxState, n: MuxNote) -> MuxState {
    MuxState { reports: s.reports.push(n), ..s }
}

/// The bytes of video that wait.
pub open spec fn video_size(s: MuxState) -> usize {
    size_of_packets(s.video.len() as int) as usize
}

/// The bytes of audio that wait.
pub open spec fn audio_size(s: MuxState) -> usize {
    size_of_packets(s.audio.len() as int) as usize
}

/// Everything that waits is thrown away, and the buffer has to fill up again.
pub open spec fn buffers_cleared(s: MuxState) -> MuxState {
    MuxState {
        reports: s.reports.push(
            MuxNote::BuffersCleared { video: video_size(s), audio: audio_size(s) },
        ),
        is_ready: false,
        video: Seq::empty(),
        audio: Seq::empty(),
        min_size: 0,
        max_size: 0,
        ..s
    }
}

/// The tables have changed under way: nothing is sent until they are as they
/// were.
pub open spec fn marked_dirty(s: MuxState) -> MuxState {
    noted(
        MuxState { dirty: true, ..buffers_cleared(s) },
        MuxNote::Command(Cmd::MarkDirty),
    )
}

pub open spec fn unmarked_dirty(s: MuxState) -> MuxState {
    noted(MuxState { dirty: false, ..s }, MuxNote::Command(Cmd::UnMarkDirty))
}

/// Whether input can be worked on: while enough video waits, nothing more is
/// taken in.
pub open spec fn work_to_do(s: MuxState) -> bool {
    if s.is_ready && !buffer_drained(s) {
        false
    } else if !s.is_sync {
        s.in_buff.len() >= 564
    } else {
        s.in_buff.len() >= 188
    }
}

// ---- Tables ----

/// A section of the association table. The first one is passed on with the
/// configured program in place of its list; later ones tell whether the list
/// has changed. One that is too short is passed over.
pub open spec fn with_pat_section(s: MuxState, section: Seq<u8>) -> MuxState {
    if section.len() < 4 {
        s
    } else if !s.pat_ready {
        if section.len() < 8 {
            s
        } else {
            let patched = patched_pat(
                section,
                seq![(program_of(s).program_id, program_of(s).pmt_pid)],
            );
            MuxState {
                pat_info: pat_programs(section),
                pat: section_packet(patched, 0, cached_counter(s.pat) as u8, 0),
                pat_ready: true,
                reports: s.reports.push(MuxNote::PatFound(pat_programs(section))).push(
                    MuxNote::PatPatched(pat_programs(patched)),
                ),
                ..s
            }
        }
    } else if !same_programs(s.pat_info, pat_programs(section)) {
        marked_dirty(noted(s, MuxNote::PatChanged))
    } else if s.dirty {
        unmarked_dirty(noted(s, MuxNote::PatRestored))
    } else {
        s
    }
}

/// A packet of the association table.
pub open spec fn with_pat_packet(s: MuxState, pkt: Seq<u8>) -> MuxState {
    if !s.pat_ready || !s.is_ready {
        let step = map_reassembled(s.pending, pkt);
        let s1 = MuxState { pending: step.0, ..s };
        match step.1 {
            Some(section) => with_pat_section(s1, section),
            None => s1,
        }
    } else {
        s
    }
}

/// The streams of the program under their own identifiers, video first.
pub open spec fn kept_streams(p: Program) -> Seq<(u16, u16)> {
    (p.video_pids@ + p.audio_pids@).map_values(|pid: u16| (pid, pid))
}

/// Reports with a map that was patched.
pub open spec fn with_patched_pmt(reports: Seq<MuxNote>, info: Option<PmtModel>) -> Seq<MuxNote> {
    match info {
        Some(i) => reports.push(MuxNote::PmtPatched(i)),
        None => reports,
    }
}

/// A section of the program map. The first one is passed on with the configured
/// streams; later ones tell whether the streams have changed. One whose lengths
/// announce more than it holds is passed over.
pub open spec fn with_pmt_section(s: MuxState, section: Seq<u8>, pid: u16) -> MuxState {
    match pmt_of(section) {
        None => s,
        Some(info) => if !s.pmt_ready {
            match patched_pmt(
                section,
                info.pcr_pid,
                kept_streams(program_of(s)),
                s.output.ca_flag == CA_FLAG_UNSCRAMBLED,
            ) {
                None => s,
                Some(patched) => MuxState {
                    pmt_info: Some(info),
                    pmt: section_packet(patched, pid, cached_counter(s.pmt) as u8, 0),
                    pmt_ready: true,
                    reports: with_patched_pmt(
                        s.reports.push(MuxNote::PmtFound(info)),
                        pmt_of(patched),
                    ),
                    ..s
                },
            }
        } else {
            match s.pmt_info {
                None => s,
                Some(current) => if pmt_changed(current, info) {
                    marked_dirty(noted(s, MuxNote::PmtChanged))
                } else if s.dirty {
                    unmarked_dirty(noted(s, MuxNote::PmtRestored))
                } else {
                    s
                },
            }
        },
    }
}

/// A packet of the program map.
pub open spec fn with_pmt_packet(s: MuxState, pkt: Seq<u8>) -> MuxState {
    let step = map_reassembled(s.pending, pkt);
    let s1 = MuxState { pending: step.0, ..s };
    match step.1 {
        Some(section) => with_pmt_section(s1, section, pid_of(pkt) as u16),
        None => s1,
    }
}

/// The identifier of the transport stream in the table that is passed on.
pub open spec fn transport_stream_id(s: MuxState) -> u16 {
    be16(s.pat[8], s.pat[9]) as u16
}

/// The first service with an identifier.
pub open spec fn service_with_id(services: Seq<SdtModel>, id: u16) -> Option<SdtModel>
    decreases services.len(),
{
    if services.len() == 0 {
        None
    } else if services[0].service_id == id {
        Some(services[0])
    } else {
        service_with_id(services.drop_first(), id)
    }
}

/// A configured name, else the one that was received.
pub open spec fn chosen_name(configured: Seq<char>, received: Seq<char>) -> Seq<char> {
    if trimmed(configured).len() > 0 {
        trimmed(configured)
    } else {
        trimmed(received)
    }
}

/// The configured kind of service, else the one that was received, else that of
/// a television service.
pub open spec fn chosen_type(configured: u32, received: u8) -> u8 {
    if configured != 0 {
        (configured % 256) as u8
    } else if received != 0 {
        received
    } else {
        1
    }
}

/// The description of the program that is sent.
pub open spec fn with_sdt(s: MuxState, service_type: u8, provider: Seq<char>, service: Seq<char>) -> MuxState {
    MuxState {
        sdt: prepared_sdt(
            transport_stream_id(s),
            program_of(s).program_id,
            service_type,
            provider,
            service,
        ),
        sdt_ready: true,
        ..s
    }
}

/// A section of the service description: the service of the program, if it is
/// there, is passed on with the configured names and kind. A section whose
/// lengths announce more than it holds is passed over.
pub open spec fn with_sdt_section(s: MuxState, section: Seq<u8>) -> MuxState {
    match sdt_services(section) {
        None => s,
        Some(services) => if services.len() == 0 {
            s
        } else {
            let s1 = noted(s, MuxNote::SdtFound(services));
            match service_with_id(services, program_of(s).program_id) {
                None => noted(s1, MuxNote::SdtMissing(program_of(s).program_id)),
                Some(service) => noted(
                    with_sdt(
                        s1,
                        chosen_type(program_of(s).service_type, service.service_type),
                        chosen_name(program_of(s).service_provider_name@, service.provider_name),
                        chosen_name(program_of(s).service_name@, service.service_name),
                    ),
                    MuxNote::SdtPatched(services),
                ),
            }
        },
    }
}

/// A packet of the service description.
pub open spec fn with_sdt_packet(s: MuxState, pkt: Seq<u8>) -> MuxState {
    if s.pat_ready && !s.sdt_ready {
        let step = map_reassembled(s.pending, pkt);
        let s1 = MuxState { pending: step.0, ..s };
        match step.1 {
            Some(section) => with_sdt_section(s1, section),
            None => s1,
        }
    } else {
        s
    }
}

// ---- Audio and video ----

/// One more continuity error of a stream.
pub open spec fn with_cc_error(errors: Map<u16, usize>, pid: u16) -> Map<u16, usize> {
    if errors.contains_key(pid) {
        errors.insert(pid, errors[pid].wrapping_add(1))
    } else {
        errors.insert(pid, 1)
    }
}

/// Whether a counter does not follow the last one of the stream.
pub open spec fn wrong_counter(s: MuxState, pid: u16, cc: u8) -> bool {
    s.last_cc.contains_key(pid) && cc != (s.last_cc[pid] + 1) % 16
}

/// The continuity counter of a packet with a payload is held against the last
/// one.
pub open spec fn cc_checked(s: MuxState, pkt: Seq<u8>, pid: u16) -> MuxState {
    if payload_start(pkt) is Some {
        let cc = counter_of(pkt) as u8;
        MuxState {
            last_cc: s.last_cc.insert(pid, cc),
            cc_errors: if wrong_counter(s, pid, cc) {
                with_cc_error(s.cc_errors, pid)
            } else {
                s.cc_errors
            },
            reports: if wrong_counter(s, pid, cc) {
                s.reports.push(
                    MuxNote::WrongCounter {
                        pid,
                        received: cc,
                        expected: ((s.last_cc[pid] + 1) % 16) as u8,
                    },
                )
            } else {
                s.reports
            },
            ..s
        }
    } else {
        s
    }
}

/// Whether the decoding time leaps ahead by more than a second.
pub open spec fn dts_leap(s: MuxState, pid: u16, dts: u64) -> bool {
    s.last_times.contains_key(pid) && (match dts_forward_ms(dts, s.last_times[pid].1) {
        Some(ms) => ms > 1000,
        None => false,
    })
}

/// A leap of the decoding time is reported.
pub open spec fn leap_noted(s: MuxState, pid: u16, dts: u64) -> MuxState {
    if dts_leap(s, pid, dts) {
        noted(
            s,
            MuxNote::Leap {
                pid,
                ms: dts_forward_ms(dts, s.last_times[pid].1)->0,
                video: video_size(s),
                audio: audio_size(s),
            },
        )
    } else {
        s
    }
}

/// A packet of audio or video with what is known of its times.
pub open spec fn queued(
    s: MuxState,
    pkt: Seq<u8>,
    pid: u16,
    pusi: bool,
    leap: bool,
) -> MuxState {
    if s.last_times.contains_key(pid) {
        let (pts, dts) = s.last_times[pid];
        MuxState {
            video: if is_video(s, pid) {
                s.video.push(
                    PacketModel {
                        data: pkt,
                        pid,
                        pts,
                        dts,
                        pusi,
                        discontinuity: leap,
                        pcr: pcr_in(pkt),
                    },
                )
            } else {
                s.video
            },
            audio: if is_audio(s, pid) {
                s.audio.push(
                    PacketModel {
                        data: pkt,
                        pid,
                        pts,
                        dts,
                        pusi,
                        discontinuity: false,
                        pcr: None,
                    },
                )
            } else {
                s.audio
            },
            ..s
        }
    } else {
        s
    }
}

/// Buffers that have run empty or over are cleared, and times are learnt anew.
#[verifier::opaque]
pub open spec fn size_checked(s: MuxState) -> MuxState {
    if s.check_size && s.is_ready && buffer_empty(s) {
        let s1 = noted(
            s,
            MuxNote::BufferEmpty {
                video: video_size(s),
                audio: audio_size(s),
                min: shown_size(s.min_size as int),
            },
        );
        MuxState { last_times: Map::empty(), ..buffers_cleared(s1) }
    } else if s.check_size && s.is_ready && buffer_full(s) {
        let s1 = noted(
            s,
            MuxNote::BufferFull {
                video: video_size(s),
                audio: audio_size(s),
                max: shown_size(s.max_size as int),
                duration: duration_of(s.video),
            },
        );
        MuxState { last_times: Map::empty(), ..buffers_cleared(s1) }
    } else {
        s
    }
}

/// A packet of audio or video is counted, unless it announces a discontinuity.
#[verifier::opaque]
pub open spec fn media_counted(s: MuxState, pkt: Seq<u8>) -> MuxState {
    if discontinuity(pkt) {
        s
    } else {
        cc_checked(s, pkt, pid_of(pkt) as u16)
    }
}

/// A packet of audio or video is queued. One in which a unit with a time starts sets
/// the time of its stream.
#[verifier::opaque]
pub open spec fn media_queued(s: MuxState, pkt: Seq<u8>) -> MuxState {
    let pid = pid_of(pkt) as u16;
    let announced = discontinuity(pkt);
    match timestamps(pkt, pid as int) {
        Some((pts, dts)) => queued(
            MuxState {
                last_times: s.last_times.insert(pid, (pts as u64, dts as u64)),
                ..leap_noted(s, pid, dts as u64)
            },
            pkt,
            pid,
            true,
            announced || dts_leap(s, pid, dts as u64),
        ),
        None => queued(s, pkt, pid, false, announced),
    }
}

/// A packet of audio or video.
pub open spec fn with_media_packet(s: MuxState, pkt: Seq<u8>) -> MuxState {
    size_checked(media_queued(media_counted(s, pkt), pkt))
}

// ---- Input ----

/// One packet of the input, by its identifier.
#[verifier::opaque]
pub open spec fn with_packet(s: MuxState, pkt: Seq<u8>) -> MuxState {
    let pid = pid_of(pkt) as u16;
    if pid == 0x1FFF {
        s
    } else if pid == 0x0000 {
        with_pat_packet(s, pkt)
    } else if pid == 0x0011 {
        with_sdt_packet(s, pkt)
    } else if pid == program_of(s).pmt_pid && (!s.pmt_ready || !s.is_ready) {
        with_pmt_packet(s, pkt)
    } else if is_audio(s, pid) || is_video(s, pid) {
        with_media_packet(s, pkt)
    } else {
        s
    }
}

/// The clock set back from a decoding time by the delay of the decoder.
#[verifier::opaque]
pub open spec fn clock_resynced(s: MuxState, dts: u64) -> MuxState {
    match s.restamper {
        Some(r) => MuxState {
            restamper: Some(resynced(r, (dts - 27_000) % 0x2_0000_0000)),
            ..s
        },
        None => s,
    }
}

/// The frame rate of the video that waits.
pub open spec fn frame_rate_of(v: Seq<PacketModel>) -> Option<FrameRate> {
    if unit_count(v) < 2 {
        None
    } else {
        match unit_span_of(v) {
            Some((first, last)) => if dts_distance(last, first) == 0 {
                None
            } else {
                Some(
                    FrameRate {
                        intervals: (unit_count(v) - 1) as u64,
                        ticks: dts_distance(last, first) as u64,
                    },
                )
            },
            None => None,
        }
    }
}

/// The bit rate at which a buffer of this size and duration is sent: its own
/// and a fifth more, in units of 1024 bits.
pub open spec fn measured_bitrate(size: int, duration: int) -> u64 {
    let rate = ((size * 8) / duration) * 6144 / 5;
    if rate <= u64::MAX {
        rate as u64
    } else {
        u64::MAX
    }
}

/// What is reported of a buffer that is full enough.
#[verifier::opaque]
pub open spec fn ready_note(s: MuxState) -> MuxNote {
    let duration = duration_of(s.video) as int;
    let size = waiting_size(s);
    MuxNote::Ready {
        duration: duration_of(s.video),
        bitrate: shown_size(size * 8 / duration),
        size: shown_size(size),
        min: shown_size(size * 1000 / duration / 2),
    }
}

/// The buffer is full enough: limits are set by what it holds, the clock is set
/// to the first packet, and sending starts.
pub open spec fn started(s: MuxState, now: i64) -> MuxState {
    let duration = duration_of(s.video) as int;
    let size = waiting_size(s);
    let s1 = MuxState {
        min_size: (size * 1000 / duration / 2) as u128,
        max_size: (size * s.buffer_ms * 2 / duration) as u128,
        reports: s.reports.push(ready_note(s)),
        restamper: match s.restamper {
            Some(r) => Some(
                if r.target_bitrate_bps == 0 {
                    PcrRestamper { target_bitrate_bps: measured_bitrate(size, duration), ..r }
                } else {
                    r
                },
            ),
            None => None,
        },
        ..s
    };
    MuxState {
        fps: frame_rate_of(s.video),
        is_ready: true,
        cc_errors: Map::empty(),
        stats: StatsModel { last_ready_timestamp: now, ..s.stats },
        ..clock_resynced(s1, s.video[0].dts)
    }
}

/// The description of the program from the configuration alone.
pub open spec fn with_configured_sdt(s: MuxState) -> MuxState {
    if s.sdt_ready {
        s
    } else {
        noted(
            with_sdt(
                s,
                chosen_type(program_of(s).service_type, 0),
                trimmed(program_of(s).service_provider_name@),
                trimmed(program_of(s).service_name@),
            ),
            MuxNote::SdtGenerated,
        )
    }
}

/// Whether sending can start is looked at after each run over the input.
#[verifier::opaque]
pub open spec fn start_checked(s: MuxState, now: i64) -> MuxState {
    if !s.is_ready && s.pat_ready && s.pmt_ready {
        let s1 = with_configured_sdt(s);
        if s1.video.len() == 0 {
            s1
        } else if is_dts_after(s1.video[0].dts, s1.video.last().dts) {
            buffers_cleared(
                noted(
                    s1,
                    MuxNote::WrongOrder { first: s1.video[0].dts, last: s1.video.last().dts },
                ),
            )
        } else if duration_of(s1.video) >= s1.buffer_ms {
            started(s1, now)
        } else {
            s1
        }
    } else {
        s
    }
}

/// The scrambled part of a packet of audio or video, where there is a key.
#[verifier::opaque]
pub open spec fn to_descramble(s: MuxState, pkt: Seq<u8>) -> Option<Scrambled> {
    let pid = pid_of(pkt) as u16;
    if s.biss is Some && (is_video(s, pid) || is_audio(s, pid)) {
        scrambled_part(pkt)
    } else {
        None
    }
}

/// What is left of the input behind its first `n` bytes.
pub open spec fn consumed(s: MuxState, n: int) -> MuxState {
    MuxState { in_buff: s.in_buff.skip(n), ..s }
}

/// The packets of the input from `pos` on. `head_done` says that the first one
/// has been through the descrambler.
pub open spec fn run_from(s: MuxState, pos: int, head_done: bool, now: i64) -> (MuxState, Step)
    decreases s.in_buff.len() - pos,
{
    if pos < 0 || pos + 188 > s.in_buff.len() || (s.is_async && s.is_ready && !buffer_drained(s)) {
        (start_checked(consumed(s, pos), now), Step::Idle)
    } else if s.in_buff[pos] != TS_SYNC_BYTE {
        (MuxState { is_sync: false, ..consumed(s, pos) }, Step::Idle)
    } else {
        let pkt = s.in_buff.subrange(pos, pos + 188);
        match (to_descramble(s, pkt), head_done) {
            (Some(part), false) => (consumed(s, pos), Step::Descramble(part)),
            _ => run_from(
                MuxState { in_buff: s.in_buff, ..with_packet(s, pkt) },
                pos + 188,
                false,
                now,
            ),
        }
    }
}

/// A run over the input.
pub open spec fn processed(s: MuxState, head_done: bool, now: i64) -> (MuxState, Step) {
    if s.is_sync {
        run_from(s, 0, head_done, now)
    } else {
        let (found, rest) = synced(s.in_buff);
        let s1 = MuxState { is_sync: found, in_buff: rest, ..s };
        if found {
            run_from(s1, 0, head_done, now)
        } else {
            (s1, Step::Idle)
        }
    }
}

/// A chunk of the input is taken in, unless the tables have changed; where
/// there is no room for it, all input is thrown away.
pub open spec fn written(s: MuxState, chunk: Seq<u8>, now: i64) -> (MuxState, Step) {
    if s.dirty {
        (s, Step::Idle)
    } else {
        let s1 = if s.in_buff.len() + chunk.len() < 52_428_800 {
            MuxState { in_buff: s.in_buff + chunk, ..s }
        } else {
            MuxState {
                in_buff: Seq::empty(),
                is_sync: false,
                ..noted(s, MuxNote::Overflow(s.in_buff.len() as usize))
            }
        };
        if s.is_async {
            (s1, Step::Idle)
        } else {
            processed(s1, false, now)
        }
    }
}

/// The packet at the head of the input after the descrambler: with its plain
/// payload, or as it is where there is none that fits.
pub open spec fn head_descrambled(s: MuxState, plain: Option<Seq<u8>>) -> MuxState {
    match plain {
        Some(p) => if s.in_buff.len() >= 188 && scrambled_part(s.in_buff.take(188)) is Some
            && p.len() == 188 - (scrambled_part(s.in_buff.take(188))->0).offset {
            MuxState {
                in_buff: descrambled(s.in_buff.take(188), p) + s.in_buff.skip(188),
                ..s
            }
        } else {
            s
        },
        None => s,
    }
}

// ---- Output ----

/// Whether a table is due again.
pub open spec fn table_due(pcr: u64, last: Option<u64>, period_ms: int) -> bool {
    match last {
        Some(at) => is_pcr_after(pcr, pcr_reduced(at + period_ms * 27_000) as u64),
        None => true,
    }
}

/// The table that is due, if one is, goes out: one packet at a time, the
/// association table first, the map next and the description last.
#[verifier::opaque]
pub open spec fn tables_flushed(s: MuxState) -> (MuxState, Seq<u8>) {
    match clock_of(s) {
        None => (s, Seq::empty()),
        Some(pcr) => if s.pat_ready && table_due(pcr, s.insert_pat, 100) {
            let pkt = with_next_counter(s.pat);
            (MuxState { insert_pat: Some(pcr), pat: pkt, ..s }, pkt)
        } else if s.pmt_ready && table_due(pcr, s.insert_pmt, 100) {
            let pkt = with_next_counter(s.pmt);
            (MuxState { insert_pmt: Some(pcr), pmt: pkt, ..s }, pkt)
        } else if s.sdt_ready && table_due(pcr, s.insert_sdt, 1000) {
            let pkt = with_next_counter(s.sdt);
            (MuxState { insert_sdt: Some(pcr), sdt: pkt, ..s }, pkt)
        } else {
            (s, Seq::empty())
        },
    }
}

/// Whether less waits than the configured share of the buffer, in percent of
/// what may be missing. Where it is exactly that share, the answer is that of a
/// comparison in double precision: these shares round up.
pub open spec fn below_share(duration: u64, buffer_ms: u64, adjust: u64) -> bool {
    &&& adjust < 100 && duration * 100 <= buffer_ms * (100 - adjust)
    &&& duration * 100 == buffer_ms * (100 - adjust) ==> share_rounds_up(adjust)
}

/// The percentages whose share rounds up in double precision.
pub open spec fn share_rounds_up(adjust: u64) -> bool {
    adjust == 18 || 41 <= adjust <= 43 || 57 <= adjust <= 59 || 69 <= adjust <= 71 || 82 <= adjust
        <= 85 || 94 <= adjust <= 99
}

/// Whether a null packet goes out to let the buffer fill up.
#[verifier::opaque]
pub open spec fn adjust_due(s: MuxState) -> bool {
    s.adjust_buf > 0 && below_share(duration_of(s.video), s.buffer_ms, s.adjust_buf)
}

/// Whether a packet with this time may go out: not later than the clock and the
/// allowed jitter.
#[verifier::opaque]
pub open spec fn may_send(s: MuxState, time: u64) -> bool {
    match clock_of(s) {
        Some(pcr) => !is_pcr_after(
            pcr_reduced(time * 300) as u64,
            pcr_reduced(pcr + s.jitter_ms * 27_000) as u64,
        ),
        None => false,
    }
}

/// The packet that goes out next, the earlier one of audio and video, and what
/// waits after it. `only_due` keeps back one whose time has not come.
#[verifier::opaque]
pub open spec fn next_packet(s: MuxState, only_due: bool) -> (MuxState, Option<PacketModel>) {
    let video_next = s.video.len() > 0 && (s.audio.len() == 0 || is_dts_after(
        s.audio[0].dts,
        s.video[0].dts,
    ));
    if video_next {
        if only_due && !may_send(s, s.video[0].dts) {
            (s, None)
        } else {
            (MuxState { video: s.video.drop_first(), ..s }, Some(s.video[0]))
        }
    } else if s.audio.len() > 0 {
        if only_due && !may_send(s, s.audio[0].dts) {
            (s, None)
        } else {
            (MuxState { audio: s.audio.drop_first(), ..s }, Some(s.audio[0]))
        }
    } else {
        (s, None)
    }
}

/// The milliseconds by which a decoding time leads the clock.
#[verifier::opaque]
pub open spec fn lead_ms(s: MuxState, dts: u64) -> i64 {
    match clock_of(s) {
        Some(pcr) => truncated(dts_delta(dts, pcr / 300), 90) as i64,
        None => 0,
    }
}

/// The clock after the decoding time of a packet was held against it: a packet
/// that comes too late sets it back.
#[verifier::opaque]
pub open spec fn drift_checked(s: MuxState, pid: u16, dts: u64) -> MuxState {
    let s1 = MuxState {
        stats: StatsModel { dts_drift: s.stats.dts_drift.insert(pid, lead_ms(s, dts)), ..s.stats },
        ..s
    };
    if lead_ms(s, dts) < 0 {
        clock_resynced(s1, dts)
    } else {
        s1
    }
}

/// The clock reference of a packet is written anew.
#[verifier::opaque]
pub open spec fn clock_written(s: MuxState, data: Seq<u8>) -> (MuxState, Seq<u8>) {
    match s.restamper {
        None => (s, data),
        Some(r) => {
            let (next, out, new_pcr) = restamped(r, data);
            let s1 = MuxState { restamper: Some(next), ..s };
            match (pcr_in(data), new_pcr) {
                (Some(old_pcr), Some(pcr)) => (
                    MuxState {
                        stats: StatsModel {
                            pcr_drift: truncated(pcr_delta(old_pcr, pcr), 27_000) as i64,
                            ..s.stats
                        },
                        ..s1
                    },
                    out,
                ),
                _ => (s1, out),
            }
        },
    }
}

/// A packet as it goes out.
#[verifier::opaque]
pub open spec fn sent_packet(s: MuxState, p: PacketModel) -> (MuxState, Seq<u8>) {
    let data = if p.discontinuity && has_discontinuity_flag(p.data) {
        p.data.update(5, (p.data[5] as int % 128 + 128) as u8)
    } else {
        p.data
    };
    let s1 = if p.discontinuity {
        clock_resynced(s, p.dts)
    } else {
        s
    };
    let s2 = drift_checked(s1, p.pid, p.dts);
    if p.pid == program_of(s).pcr_pid {
        clock_written(s2, data)
    } else {
        (s2, data)
    }
}

/// Packets are counted for the clock.
#[verifier::opaque]
pub open spec fn clock_counted(s: MuxState, n: u64) -> MuxState {
    match s.restamper {
        Some(r) => MuxState {
            restamper: Some(
                PcrRestamper {
                    total_packets_sent: r.total_packets_sent.wrapping_add(n),
                    ..r
                },
            ),
            ..s
        },
        None => s,
    }
}

/// Whether so much input waits that video goes out ahead of its time.
#[verifier::opaque]
pub open spec fn input_ahead(s: MuxState) -> bool {
    s.adjust_buf > 0 && s.in_buff.len() > size_of_packets(s.video.len() as int) * s.adjust_buf
        / 100
}

/// One packet at a constant rate: what is due, else video ahead of its time
/// where too much input waits, else a null packet.
#[verifier::opaque]
pub open spec fn cbr_packet(s: MuxState, adjusted: bool) -> (MuxState, Seq<u8>) {
    let s1 = clock_counted(s, 1);
    let (s2, due) = next_packet(s1, true);
    match due {
        Some(p) => sent_packet(MuxState { n_payload: s2.n_payload.wrapping_add(1), ..s2 }, p),
        None => if !adjusted && input_ahead(s2) && s2.video.len() > 0 {
            sent_packet(
                MuxState {
                    video: s2.video.drop_first(),
                    n_payload: s2.n_payload.wrapping_add(1),
                    ..s2
                },
                s2.video[0],
            )
        } else {
            (MuxState { n_null: s2.n_null.wrapping_add(1), ..s2 }, null_packet())
        },
    }
}

/// Packets at a constant rate.
pub open spec fn cbr_packets(s: MuxState, adjusted: bool, n: int) -> (MuxState, Seq<u8>)
    decreases n,
{
    if n <= 0 {
        (s, Seq::empty())
    } else {
        let (s1, before) = cbr_packets(s, adjusted, n - 1);
        let (s2, pkt) = cbr_packet(s1, adjusted);
        (s2, before + pkt)
    }
}

/// The size of what is sent at once.
pub open spec fn pkt_size_of(s: MuxState) -> u16 {
    if s.output.pkt_size == 0 {
        188
    } else {
        s.output.pkt_size
    }
}

/// Whether anything is sent at all.
pub open spec fn sending(s: MuxState) -> bool {
    !s.dirty && s.is_ready
}

/// The table that is due goes out and is counted, for the clock too where the
/// rate is constant.
#[verifier::opaque]
pub open spec fn tables_sent(s: MuxState, constant_rate: bool) -> (MuxState, Seq<u8>) {
    let (t, table) = tables_flushed(s);
    if table.len() > 0 {
        let c = if constant_rate {
            clock_counted(t, 1)
        } else {
            t
        };
        (MuxState { n_psi: c.n_psi.wrapping_add(1), ..c }, table)
    } else {
        (t, table)
    }
}

/// A null packet goes out where the buffer has to fill up and there is room.
#[verifier::opaque]
pub open spec fn filling_sent(s: MuxState, room: bool) -> (MuxState, Seq<u8>) {
    if room && adjust_due(s) {
        let c = clock_counted(s, 1);
        (MuxState { n_adjust: c.n_adjust.wrapping_add(1), ..c }, null_packet())
    } else {
        (s, Seq::empty())
    }
}

/// A datagram at a constant rate: a table that is due, a null packet where the
/// buffer has to fill up, and packets up to the configured size.
pub open spec fn cbr_flushed(s: MuxState) -> (MuxState, Option<Seq<u8>>) {
    if !sending(s) {
        (s, None)
    } else {
        let (s1, table) = tables_sent(s, true);
        let room = pkt_size_of(s) as int / 188 - table.len() / 188;
        let (s2, filling) = filling_sent(s1, room > 0);
        let (s3, rest) = cbr_packets(s2, filling.len() > 0, room - filling.len() / 188);
        (s3, Some(table + filling + rest))
    }
}

/// Packets as they come, at most `n`, and the first clock reference among them.
pub open spec fn vbr_packets(s: MuxState, n: int) -> (MuxState, Seq<u8>, Option<u64>)
    decreases n,
{
    if n <= 0 {
        (s, Seq::empty(), None)
    } else {
        match next_packet(s, false) {
            (s1, Some(p)) => {
                let (s2, rest, pcr) = vbr_packets(
                    MuxState { n_payload: s1.n_payload.wrapping_add(1), ..s1 },
                    n - 1,
                );
                (
                    s2,
                    p.data + rest,
                    if p.pcr is Some {
                        p.pcr
                    } else {
                        pcr
                    },
                )
            },
            (s1, None) => (s, Seq::empty(), None),
        }
    }
}

/// The clock follows a reference that went out.
pub open spec fn clock_followed(s: MuxState, pcr: Option<u64>) -> MuxState {
    match (pcr, s.restamper) {
        (Some(pcr), Some(r)) => MuxState {
            restamper: Some(PcrRestamper { first_pcr_value: Some(pcr), ..r }),
            ..s
        },
        _ => s,
    }
}

/// A run of packets as they come, after a table that is due. The clock follows
/// the first reference among them.
pub open spec fn vbr_flushed(s: MuxState) -> (MuxState, Option<Seq<u8>>) {
    if !sending(s) {
        (s, None)
    } else {
        let (s1, table) = tables_sent(s, false);
        let (s2, rest, first_pcr) = vbr_packets(
            s1,
            pkt_size_of(s) as int / 188 - table.len() / 188,
        );
        (
            clock_followed(s2, first_pcr),
            if (table + rest).len() > 0 {
                Some(table + rest)
            } else {
                None
            },
        )
    }
}

/// Runs of packets are put together up to the size of a frame.
pub open spec fn frame_filled(s: MuxState) -> MuxState
    decreases
            if s.frame.len() >= 8192 {
                0
            } else {
                8192 - s.frame.len()
            },
{
    if s.frame.len() >= 8192 {
        s
    } else {
        match vbr_flushed(s) {
            (s1, Some(run)) => if run.len() > 0 {
                frame_filled(MuxState { frame: s.frame + run, ..s1 })
            } else {
                s1
            },
            (s1, None) => s1,
        }
    }
}

/// A frame of what waits, once there is enough for a whole one.
pub open spec fn frame_flushed(s: MuxState) -> (MuxState, Option<Seq<u8>>) {
    if !sending(s) {
        (s, None)
    } else {
        let f = frame_filled(s);
        if f.frame.len() >= 8192 {
            (MuxState { frame: f.frame.skip(8192), ..f }, Some(f.frame.take(8192)))
        } else {
            (f, None)
        }
    }
}

/// How many packets wait.
pub open spec fn waiting(s: MuxState) -> nat {
    s.video.len() + s.audio.len()
}

/// The counters and statistics that are reported, the counters counted anew.
pub open spec fn reported(s: MuxState, fps_hundredths: u64) -> MuxState {
    MuxState {
        n_psi: 0,
        n_null: 0,
        n_payload: 0,
        n_adjust: 0,
        stats: StatsModel {
            in_buffer_len: s.in_buff.len() as u64,
            v_buffer_stats: buffer_stats_of(s.video),
            a_buffer_stats: buffer_stats_of(s.audio),
            cc: s.stats.cc.union_prefer_right(s.cc_errors),
            bitrate_psi: packet_bits(s.n_psi),
            bitrate_payload: packet_bits(s.n_payload),
            bitrate_null: packet_bits(s.n_null),
            bitrate_adjust_null: packet_bits(s.n_adjust),
            fps: fps_hundredths,
            buffer_duration_ms: s.buffer_ms,
            jitter_ms: s.jitter_ms,
            adjust_buf: s.adjust_buf,
            dirty: if s.dirty {
                1
            } else {
                0
            },
            ..s.stats
        },
        ..s
    }
}

/// Whole datagrams of a size, cut from the front of a buffer.
pub open spec fn datagrams(b: Seq<u8>, size: int) -> Seq<Seq<u8>>
    decreases b.len(),
{
    if size <= 0 || b.len() < size {
        Seq::empty()
    } else {
        seq![b.take(size)] + datagrams(b.skip(size), size)
    }
}

/// What passes a proxy unchanged: every chunk as it comes where no size is
/// configured, else whole datagrams from the first place where packets start.
pub open spec fn proxied(s: MuxState, chunk: Seq<u8>) -> (MuxState, Seq<Seq<u8>>) {
    if s.output.pkt_size == 0 {
        (s, seq![chunk])
    } else {
        let all = s.in_buff + chunk;
        let (found, b) = if s.is_sync {
            (true, all)
        } else {
            synced(all)
        };
        let s1 = MuxState { is_sync: found, ..s };
        if found {
            let size = s.output.pkt_size as int;
            (
                MuxState { in_buff: b.skip((b.len() as int / size) * size), ..s1 },
                datagrams(b, size),
            )
        } else {
            (MuxState { in_buff: b, ..s1 }, Seq::empty())
        }
    }
}

/// What no packet changes: the input, the configuration, and that nothing was sent
/// yet.
pub open spec fn packet_keeps(s: MuxState, t: MuxState) -> bool {
    &&& t.in_buff == s.in_buff
    &&& t.output == s.output
    &&& t.buffer_ms == s.buffer_ms
    &&& t.is_ready ==> s.is_ready
    &&& s.reports.is_prefix_of(t.reports)
}

proof fn lemma_counted_keeps(s: MuxState, pkt: Seq<u8>)
    ensures
        packet_keeps(s, media_counted(s, pkt)),
{
    reveal(media_counted);
}

proof fn lemma_queued_keeps(s: MuxState, pkt: Seq<u8>)
    ensures
        packet_keeps(s, media_queued(s, pkt)),
{
    reveal(media_queued);
}

proof fn lemma_size_keeps(s: MuxState)
    ensures
        packet_keeps(s, size_checked(s)),
{
    reveal(size_checked);
}

proof fn lemma_media_keeps(s: MuxState, pkt: Seq<u8>)
    ensures
        packet_keeps(s, with_media_packet(s, pkt)),
{
    let s1 = media_counted(s, pkt);
    let s2 = media_queued(s1, pkt);
    lemma_counted_keeps(s, pkt);
    lemma_queued_keeps(s1, pkt);
    lemma_size_keeps(s2);
}

proof fn lemma_pat_keeps(s: MuxState, pkt: Seq<u8>)
    ensures
        packet_keeps(s, with_pat_packet(s, pkt)),
{
}

proof fn lemma_sdt_keeps(s: MuxState, pkt: Seq<u8>)
    ensures
        packet_keeps(s, with_sdt_packet(s, pkt)),
{
}

proof fn lemma_pmt_keeps(s: MuxState, pkt: Seq<u8>)
    ensures
        packet_keeps(s, with_pmt_packet(s, pkt)),
{
}

/// Working on a packet changes neither the input nor the configuration, starts
/// nothing, and takes no report back.
pub proof fn lemma_packet_keeps(s: MuxState, pkt: Seq<u8>)
    ensures
        packet_keeps(s, with_packet(s, pkt)),
{
    reveal(with_packet);
    lemma_media_keeps(s, pkt);
    lemma_pat_keeps(s, pkt);
    lemma_sdt_keeps(s, pkt);
    lemma_pmt_keeps(s, pkt);
}

} // verus!
