//! The packet handler of an output: it takes in a stream, keeps what belongs to
//! the configured program, and hands out what is to be sent.

use crate::biss::{
    descrambled, key_word, packet_at, Biss1Descrambler, BissError, Scrambled,
};
use crate::bits::join16;
use crate::buffer::{
    buffer_advance, buffer_extend, buffer_freeze, buffer_len, buffer_new, buffer_set, buffer_slice,
    buffer_split_to, held_bytes, shared_bytes, shared_slice,
};
use crate::clock::{
    dts_after, dts_forward, dts_forward_delta_ms, dts_signed_delta, is_dts_after, pcr_add,
    pcr_after, pcr_delta, pcr_reduced, pcr_signed_delta, PCR_CYCLE,
};
use crate::config::{Output, Program, CA_FLAG_UNSCRAMBLED};
use crate::mux::laws::whole_packets;
use crate::mux::out_buffer::{duration_of, lemma_buffer_whole, OutBuffer, TsPacket};
use crate::mux::reports::{notes, show_size, MuxNote, MuxReport};
use crate::mux::restamper::PcrRestamper;
use crate::mux::state::{
    adjust_due, aligned, audio_size, below_share, buffer_drained, buffer_empty, buffer_full,
    buffers_cleared, cbr_flushed, cbr_packet, cbr_packets, cc_checked, chosen_name, chosen_type,
    clock_counted, clock_followed, clock_of, clock_resynced, clock_written, consumed, datagrams,
    drift_checked, dts_leap, filling_sent, first_aligned, first_sync, frame_filled, frame_flushed,
    frame_rate_of, head_descrambled, initial_state, input_ahead, is_audio, is_video, kept_streams,
    lead_ms, leap_noted, lemma_packet_keeps, marked_dirty, may_send, measured_bitrate,
    media_counted, media_queued, next_packet, noted, pkt_size_of, processed, program_counts,
    program_of, proxied, queued, ready_note, reported, run_from, sending, sent_packet,
    service_with_id, size_checked, start_checked, started, synced, table_due, tables_flushed,
    tables_sent, to_descramble, transport_stream_id, unmarked_dirty, vbr_flushed, vbr_packets,
    video_size, waiting_size, with_cc_error, with_media_packet, with_packet, with_pat_packet,
    with_pat_section, with_pmt_packet, with_pmt_section, with_sdt, with_sdt_packet,
    with_sdt_section, work_to_do, written, zero_counts, Cmd, FrameRate, MuxState, Step,
};
use crate::packet::{
    null_packet, pkt_get_discontinuity, pkt_has_payload, pkt_next, pkt_pid, pkt_pts_dts,
    pkt_set_discontinuity, ts_null_packet, TS_PACKET_SIZE, TS_SYNC_BYTE,
};
use crate::psi::header::cached_cc;
use crate::psi::pat::{analyze_pat, is_pat_changed, patch_pat_section, PatInfo};
use crate::psi::pmt::{
    is_pmt_changed, try_analyze_pmt, try_patch_pmt_section, PmtInfo, PmtModel,
};
use crate::psi::sdt::{prepare_sdt, services_view, try_analyze_sdt, SdtInfo};
use crate::psi::section::{map_reassembled, pack, SectionReassemblerMap};
use crate::psi::time::{truncated, truncating_div, UtcTime};
use crate::status::{OutputStats, StatsModel};
use crate::text::trim;
use bytes::{Bytes, BytesMut};
use std::collections::HashMap;
use vstd::prelude::*;
use vstd::string::StringExecFns;

verus! {

broadcast use vstd::std_specs::hash::group_hash_axioms;

pub const IN_BUFFER_SIZE: usize = 65536;

pub const FRAME_BUFFER_SIZE: usize = 8192;

pub const MUX_BUFFER_SIZE: usize = 564;

pub const MAX_BUFFER_SIZE: usize = 52_428_800;

pub const MAX_BUFFER_COUNT_V: usize = 5_000;

pub const MAX_BUFFER_COUNT_A: usize = 500;

pub const BUFFER_DURATION_MS: u64 = 5_000;

pub const PERIOD_PAT_MS: u64 = 100;

pub const PERIOD_PMT_MS: u64 = 100;

pub const PERIOD_SDT_MS: u64 = 1_000;

pub const DISCONTINUITY_THRESHOLD_MS: u64 = 1_000;

/// The delay of the decoder behind the clock: 300 ms at 90 kHz.
pub const DTS_PCR_DIFF: u64 = 27_000;

pub const MIN_JITTER_MS: u64 = 30;

pub const MAX_JITTER_MS: u64 = 3_000;

/// When each table was sent last.
struct UpdateTimers {
    insert_pat: Option<u64>,
    insert_pmt: Option<u64>,
    insert_sdt: Option<u64>,
}

/// The packet handler of an output. It sends one program.
pub struct PacketHandler {
    output: Output,
    is_ready: bool,
    is_sync: bool,
    is_buffer_process_async: bool,
    in_buff: BytesMut,
    out_buff_v: OutBuffer,
    out_buff_a: OutBuffer,
    frame_buff: BytesMut,
    check_buffer_size: bool,
    min_buff_size: u128,
    max_buff_size: u128,
    last_pts_dts: HashMap<u16, (u64, u64)>,
    last_cc: HashMap<u16, u8>,
    cc_errors: HashMap<u16, usize>,
    buffer_duration_ms: u64,
    jitter_ms: u64,
    adjust_buf: u64,
    pat_info: Vec<PatInfo>,
    pmt_info: Option<PmtInfo>,
    pat: [u8; TS_PACKET_SIZE],
    pmt: [u8; TS_PACKET_SIZE],
    sdt: [u8; TS_PACKET_SIZE],
    pat_ready: bool,
    pmt_ready: bool,
    sdt_ready: bool,
    psi_reasm: SectionReassemblerMap,
    timers: UpdateTimers,
    count_psi_packets: usize,
    count_null_packets: usize,
    count_payload_packets: usize,
    count_adjust_packets: usize,
    fps: Option<FrameRate>,
    pcr_restamper: Option<PcrRestamper>,
    biss: Option<Biss1Descrambler>,
    stats: OutputStats,
    dirty: bool,
    reports: Vec<MuxReport>,
}

/// What an optional program map says.
pub open spec fn pmt_view(p: Option<PmtInfo>) -> Option<PmtModel> {
    match p {
        Some(info) => Some(info@),
        None => None,
    }
}

impl View for PacketHandler {
    type V = MuxState;

    closed spec fn view(&self) -> MuxState {
        self.state()
    }
}

impl PacketHandler {
    /// The state of the handler.
    #[verifier::opaque]
    closed spec fn state(&self) -> MuxState {
        MuxState {
            output: self.output,
            is_ready: self.is_ready,
            is_sync: self.is_sync,
            is_async: self.is_buffer_process_async,
            in_buff: held_bytes(self.in_buff),
            video: self.out_buff_v@,
            audio: self.out_buff_a@,
            frame: held_bytes(self.frame_buff),
            check_size: self.check_buffer_size,
            min_size: self.min_buff_size,
            max_size: self.max_buff_size,
            last_times: self.last_pts_dts@,
            last_cc: self.last_cc@,
            cc_errors: self.cc_errors@,
            buffer_ms: self.buffer_duration_ms,
            jitter_ms: self.jitter_ms,
            adjust_buf: self.adjust_buf,
            pat_info: self.pat_info@,
            pmt_info: pmt_view(self.pmt_info),
            pat: self.pat@,
            pmt: self.pmt@,
            sdt: self.sdt@,
            pat_ready: self.pat_ready,
            pmt_ready: self.pmt_ready,
            sdt_ready: self.sdt_ready,
            pending: self.psi_reasm@,
            insert_pat: self.timers.insert_pat,
            insert_pmt: self.timers.insert_pmt,
            insert_sdt: self.timers.insert_sdt,
            n_psi: self.count_psi_packets,
            n_null: self.count_null_packets,
            n_payload: self.count_payload_packets,
            n_adjust: self.count_adjust_packets,
            fps: self.fps,
            restamper: self.pcr_restamper,
            biss: self.biss,
            stats: self.stats@,
            dirty: self.dirty,
            reports: notes(self.reports@),
        }
    }
}

/// The control word of a configured key, or why there is none.
pub open spec fn biss_word(key: Seq<char>) -> Result<Seq<u8>, BissError> {
    if key.len() == 0 {
        Err(BissError::Empty)
    } else {
        key_word(key)
    }
}

/// Whether an output has a program to send.
pub open spec fn has_program(output: Output) -> bool {
    output.programs@.len() > 0
}

/// Whether a list holds a packet identifier.
fn has_pid(pids: &Vec<u16>, pid: u16) -> (r: bool)
    ensures
        r == pids@.contains(pid),
{
    let mut i: usize = 0;
    while i < pids.len()
        invariant
            i <= pids@.len(),
            forall|j: int| 0 <= j < i ==> pids@[j] != pid,
        decreases pids@.len() - i,
    {
        if pids[i] == pid {
            assert(pids@[i as int] == pid);
            return true;
        }
        i = i + 1;
    }
    false
}

/// Counts each of these streams from 0.
fn insert_zero_counts(counts: &mut HashMap<u16, usize>, pids: &Vec<u16>)
    ensures
        final(counts)@ == old(counts)@.union_prefer_right(zero_counts(pids@)),
{
    let mut i: usize = 0;
    assert(counts@ =~= old(counts)@.union_prefer_right(zero_counts(pids@.take(0))));
    while i < pids.len()
        invariant
            i <= pids@.len(),
            counts@ == old(counts)@.union_prefer_right(zero_counts(pids@.take(i as int))),
        decreases pids@.len() - i,
    {
        counts.insert(pids[i], 0);
        proof {
            let a = pids@.take(i as int);
            let b = pids@.take(i + 1);
            assert(b =~= a.push(pids@[i as int]));
            assert forall|p: u16| b.contains(p) <==> a.contains(p) || p == pids@[i as int] by {
                if a.contains(p) {
                    let j = choose|j: int| 0 <= j < a.len() && a[j] == p;
                    assert(b[j] == p);
                }
                assert(b[i as int] == pids@[i as int]);
            }
            assert(counts@ =~= old(counts)@.union_prefer_right(zero_counts(b)));
        }
        i = i + 1;
    }
    assert(pids@.take(pids@.len() as int) =~= pids@);
}

impl PacketHandler {
    /// The buffers count what they hold, and the input stays below its limit.
    #[verifier::opaque]
    pub closed spec fn wf(&self) -> bool {
        &&& self.out_buff_v.wf()
        &&& self.out_buff_a.wf()
        &&& self.psi_reasm.wf()
        &&& held_bytes(self.in_buff).len() < MAX_BUFFER_SIZE
        &&& held_bytes(self.frame_buff).len() <= 80_000
        &&& 0 < self.buffer_duration_ms <= u32::MAX
        &&& 30 <= self.jitter_ms <= 3000
        &&& self.adjust_buf <= u32::MAX
    }

    /// The handler of an output. A key that is refused is left aside.
    pub fn new(output: Output, stats: OutputStats) -> (r: Option<Self>)
        ensures
            r is Some,
            (r->0).wf(),
            (r->0)@ == initial_state(
                output,
                (r->0)@.biss,
                match biss_word(output.biss_key@) {
                    Ok(_) => None,
                    Err(e) => Some(e),
                },
                stats@,
            ),
            (r->0)@.biss is Some == biss_word(output.biss_key@) is Ok,
            (r->0)@.biss matches Some(d) ==> biss_word(output.biss_key@) == Ok::<
                Seq<u8>,
                BissError,
            >(d.word()),
    {
        proof {
            reveal(PacketHandler::state);
            reveal(PacketHandler::wf);
        }
        let pcr_restamper = if !output.proxy {
            Some(PcrRestamper::new(output.cbr as u64))
        } else {
            None
        };
        let mut reports: Vec<MuxReport> = Vec::new();
        assert(notes(reports@) =~= Seq::empty());
        let biss = match Self::init_biss(output.biss_key.as_str()) {
            Ok(b) => Some(b),
            Err(e) => {
                reports.push(MuxReport::KeyRefused(e));
                assert(notes(reports@) =~= seq![MuxNote::KeyRefused(e)]);
                None
            },
        };
        let mut cc_errors: HashMap<u16, usize> = HashMap::new();
        let mut jitter: u64 = 0;
        let mut adjust_buf: u64 = 0;
        let mut duration: u64 = 0;
        let mut i: usize = 0;
        assert(output.programs@.take(0) =~= Seq::<Program>::empty());
        while i < output.programs.len()
            invariant
                i <= output.programs@.len(),
                cc_errors@ == program_counts(output.programs@.take(i as int)),
                i == 0 ==> jitter == 0 && adjust_buf == 0 && duration == 0,
                i > 0 ==> jitter == output.programs@[i - 1].jitter && adjust_buf
                    == output.programs@[i - 1].adjust_buf && duration == output.programs@[i
                    - 1].buffer_duration,
            decreases output.programs@.len() - i,
        {
            let program = &output.programs[i];
            insert_zero_counts(&mut cc_errors, &program.audio_pids);
            insert_zero_counts(&mut cc_errors, &program.video_pids);
            jitter = program.jitter as u64;
            adjust_buf = program.adjust_buf as u64;
            duration = program.buffer_duration as u64;
            proof {
                let b = output.programs@.take(i + 1);
                assert(b.drop_last() =~= output.programs@.take(i as int));
                assert(b.last() == output.programs@[i as int]);
            }
            i = i + 1;
        }
        assert(output.programs@.take(output.programs@.len() as int) =~= output.programs@);
        let ghost stats0 = stats@;
        let mut stats = stats;
        stats.update_cc(&cc_errors);
        let jitter_ms: u64 = if jitter < MIN_JITTER_MS {
            MIN_JITTER_MS
        } else if jitter > MAX_JITTER_MS {
            MAX_JITTER_MS
        } else {
            jitter
        };
        let buffer_duration_ms: u64 = if duration == 0 {
            BUFFER_DURATION_MS
        } else {
            duration
        };
        let r = PacketHandler {
            output,
            is_ready: false,
            is_sync: false,
            is_buffer_process_async: false,
            in_buff: buffer_new(IN_BUFFER_SIZE),
            out_buff_v: OutBuffer::new(MAX_BUFFER_COUNT_V),
            out_buff_a: OutBuffer::new(MAX_BUFFER_COUNT_A),
            frame_buff: buffer_new(FRAME_BUFFER_SIZE),
            check_buffer_size: false,
            min_buff_size: 0,
            max_buff_size: 0,
            last_pts_dts: HashMap::new(),
            last_cc: HashMap::new(),
            cc_errors,
            buffer_duration_ms,
            jitter_ms,
            adjust_buf,
            pat_info: Vec::new(),
            pmt_info: None,
            pat: [0;TS_PACKET_SIZE],
            pmt: [0;TS_PACKET_SIZE],
            sdt: [0;TS_PACKET_SIZE],
            pat_ready: false,
            pmt_ready: false,
            sdt_ready: false,
            psi_reasm: SectionReassemblerMap::new(),
            timers: UpdateTimers { insert_pat: None, insert_pmt: None, insert_sdt: None },
            count_psi_packets: 0,
            count_null_packets: 0,
            count_payload_packets: 0,
            count_adjust_packets: 0,
            fps: None,
            pcr_restamper,
            biss,
            stats,
            dirty: false,
            reports,
        };
        let ghost refused = match biss_word(output.biss_key@) {
            Ok(_) => None,
            Err(e) => Some(e),
        };
        assert(r@ =~= initial_state(output, r@.biss, refused, stats0));
        Some(r)
    }

    /// The descrambler for a configured key.
    pub fn init_biss(biss_key: &str) -> (r: Result<Biss1Descrambler, BissError>)
        ensures
            r is Ok == biss_word(biss_key@) is Ok,
            r matches Ok(d) ==> biss_word(biss_key@) == Ok::<Seq<u8>, BissError>(d.word()),
            r matches Err(e) ==> biss_word(biss_key@) == Err::<Seq<u8>, BissError>(e),
    {
        if biss_key.is_empty() {
            Err(BissError::Empty)
        } else {
            Biss1Descrambler::new_from_hex(biss_key)
        }
    }

    /// Drops what stands before the first place where three packets in a row
    /// start, and says whether there is such a place.
    pub fn sync_buffer(buff: &mut BytesMut) -> (r: bool)
        ensures
            r == synced(held_bytes(*old(buff))).0,
            held_bytes(*final(buff)) == synced(held_bytes(*old(buff))).1,
    {
        let ghost b = held_bytes(*buff);
        let len: usize = buffer_len(buff);
        if len < MUX_BUFFER_SIZE {
            return false;
        }
        let mut i: usize = 0;
        let mut found = false;
        let slice = buffer_slice(buff);
        while !found && len - i >= MUX_BUFFER_SIZE
            invariant
                slice@ == b,
                len == b.len(),
                i <= len,
                len >= 564,
                first_aligned(b, i as int) == first_aligned(b, 0),
                found ==> aligned(b, i as int),
            decreases len - i, if found {
                0int
            } else {
                1
            },
        {
            if slice[i] == TS_SYNC_BYTE && slice[i + TS_PACKET_SIZE] == TS_SYNC_BYTE && slice[i
                + 2 * TS_PACKET_SIZE] == TS_SYNC_BYTE {
                found = true;
            } else {
                i = i + 1;
            }
        }
        if found {
            buffer_advance(buff, i);
            return true;
        }
        let mut j: usize = len - (MUX_BUFFER_SIZE - 1);
        while j < len && slice[j] != TS_SYNC_BYTE
            invariant
                slice@ == b,
                len == b.len(),
                len - 563 <= j <= len,
                first_sync(b, j as int) == first_sync(b, len - 563),
            decreases len - j,
        {
            j = j + 1;
        }
        buffer_advance(buff, j);
        false
    }

    /// The size of what is sent at once.
    pub fn get_pkt_size(&self) -> (r: u16)
        ensures
            r == pkt_size_of(self@),
    {
        proof {
            reveal(PacketHandler::state);
            reveal(PacketHandler::wf);
        }
        if self.output.pkt_size == 0 {
            188
        } else {
            self.output.pkt_size
        }
    }

    /// The bit rate at which is sent, 0 as long as it is not known; none for a
    /// proxy.
    pub fn get_bitrate(&self) -> (r: Option<u64>)
        ensures
            r == match self@.restamper {
                Some(c) => Some(c.target_bitrate_bps),
                None => None,
            },
    {
        proof {
            reveal(PacketHandler::state);
            reveal(PacketHandler::wf);
        }
        match &self.pcr_restamper {
            Some(c) => Some(c.target_bitrate_bps),
            None => None,
        }
    }

    /// The frame rate of the video that waits.
    pub fn calculate_fps(&self) -> (r: Option<FrameRate>)
        requires
            self.wf(),
        ensures
            r == frame_rate_of(self@.video),
    {
        proof {
            reveal(PacketHandler::state);
            reveal(PacketHandler::wf);
        }
        let frames: usize = self.out_buff_v.frames();
        if frames < 2 {
            return None;
        }
        match self.out_buff_v.unit_span() {
            Some((first, last)) => {
                let ticks = dts_forward(last, first);
                if ticks == 0 {
                    return None;
                }
                Some(FrameRate { intervals: (frames - 1) as u64, ticks })
            },
            None => None,
        }
    }

    /// The frame rate of the video that waits, else that of the video with
    /// which sending started.
    pub fn frame_rate(&self) -> (r: Option<FrameRate>)
        requires
            self.wf(),
        ensures
            r == if frame_rate_of(self@.video) is Some {
                frame_rate_of(self@.video)
            } else {
                self@.fps
            },
    {
        proof {
            reveal(PacketHandler::state);
            reveal(PacketHandler::wf);
        }
        match self.calculate_fps() {
            Some(rate) => Some(rate),
            None => self.fps,
        }
    }

    /// From now on buffers that run empty or over are cleared.
    pub fn set_check_buffer_size(&mut self)
        requires
            old(self).wf(),
        ensures
            final(self).wf(),
            final(self)@ == (MuxState { check_size: true, ..old(self)@ }),
    {
        proof {
            reveal(PacketHandler::state);
            reveal(PacketHandler::wf);
        }
        self.check_buffer_size = true;
    }

    /// From now on input is worked on separately from taking it in.
    pub fn set_buffer_process_async(&mut self)
        requires
            old(self).wf(),
        ensures
            final(self).wf(),
            final(self)@ == (MuxState { is_async: true, ..old(self)@ }),
    {
        proof {
            reveal(PacketHandler::state);
            reveal(PacketHandler::wf);
        }
        self.is_buffer_process_async = true;
    }

    /// The program that is sent.
    pub fn get_program(&self) -> (r: &Program)
        requires
            has_program(self@.output),
        ensures
            *r == program_of(self@),
    {
        proof {
            reveal(PacketHandler::state);
            reveal(PacketHandler::wf);
        }
        &self.output.programs[0]
    }

    /// The configuration of the output.
    pub fn output(&self) -> (r: &Output)
        ensures
            *r == self@.output,
    {
        proof {
            reveal(PacketHandler::state);
            reveal(PacketHandler::wf);
        }
        &self.output
    }

    /// The figures about the output.
    pub fn stats(&self) -> (r: &OutputStats)
        ensures
            r@ == self@.stats,
    {
        proof {
            reveal(PacketHandler::state);
            reveal(PacketHandler::wf);
        }
        &self.stats
    }

    /// Notes the bit rate of what was sent.
    pub fn update_sent_bitrate(&mut self, bitrate: u64)
        requires
            old(self).wf(),
        ensures
            final(self).wf(),
            final(self)@ == (MuxState {
                stats: StatsModel { bitrate, ..old(self)@.stats },
                ..old(self)@
            }),
    {
        proof {
            reveal(PacketHandler::state);
            reveal(PacketHandler::wf);
        }
        self.stats.update_bitrate(bitrate);
    }

    /// Hands out what is to be reported, in the order in which it happened.
    pub fn take_reports(&mut self) -> (r: Vec<MuxReport>)
        requires
            old(self).wf(),
        ensures
            final(self).wf(),
            notes(r@) == old(self)@.reports,
            final(self)@ == (MuxState { reports: Seq::empty(), ..old(self)@ }),
    {
        proof {
            reveal(PacketHandler::state);
            reveal(PacketHandler::wf);
        }
        let mut out: Vec<MuxReport> = Vec::new();
        out.append(&mut self.reports);
        assert(out@ =~= old(self).reports@);
        assert(notes(self.reports@) =~= Seq::empty());
        out
    }

    /// Keeps a report until it is handed out.
    fn report(&mut self, report: MuxReport)
        requires
            old(self).wf(),
        ensures
            final(self).wf(),
            final(self)@ == noted(old(self)@, report@),
    {
        proof {
            reveal(PacketHandler::state);
            reveal(PacketHandler::wf);
        }
        self.reports.push(report);
        assert(notes(self.reports@) =~= notes(old(self).reports@).push(report@));
    }

    /// The bytes of video that wait.
    fn video_bytes(&self) -> (r: usize)
        ensures
            r == video_size(self@),
    {
        proof {
            reveal(PacketHandler::state);
        }
        self.out_buff_v.size()
    }

    /// The bytes of audio that wait.
    fn audio_bytes(&self) -> (r: usize)
        ensures
            r == audio_size(self@),
    {
        proof {
            reveal(PacketHandler::state);
        }
        self.out_buff_a.size()
    }

    fn is_video_pid(&self, pid: u16) -> (r: bool)
        requires
            has_program(self@.output),
        ensures
            r == is_video(self@, pid),
    {
        proof {
            reveal(PacketHandler::state);
            reveal(PacketHandler::wf);
        }
        has_pid(&self.output.programs[0].video_pids, pid)
    }

    fn is_audio_pid(&self, pid: u16) -> (r: bool)
        requires
            has_program(self@.output),
        ensures
            r == is_audio(self@, pid),
    {
        proof {
            reveal(PacketHandler::state);
            reveal(PacketHandler::wf);
        }
        has_pid(&self.output.programs[0].audio_pids, pid)
    }

    fn buffers_clear(&mut self)
        requires
            old(self).wf(),
        ensures
            final(self).wf(),
            final(self)@ == buffers_cleared(old(self)@),
    {
        proof {
            reveal(PacketHandler::state);
            reveal(PacketHandler::wf);
        }
        let cleared = MuxReport::BuffersCleared {
            video: self.video_bytes(),
            audio: self.audio_bytes(),
        };
        self.report(cleared);
        self.is_ready = false;
        self.out_buff_v.clear();
        self.out_buff_a.clear();
        self.min_buff_size = 0;
        self.max_buff_size = 0;
    }

    fn mark_dirty(&mut self)
        requires
            old(self).wf(),
        ensures
            final(self).wf(),
            final(self)@ == marked_dirty(old(self)@),
    {
        proof {
            reveal(PacketHandler::state);
            reveal(PacketHandler::wf);
        }
        self.dirty = true;
        self.buffers_clear();
        self.report(MuxReport::Command(Cmd::MarkDirty));
    }

    fn unmark_dirty(&mut self)
        requires
            old(self).wf(),
        ensures
            final(self).wf(),
            final(self)@ == unmarked_dirty(old(self)@),
    {
        proof {
            reveal(PacketHandler::state);
            reveal(PacketHandler::wf);
        }
        self.dirty = false;
        self.report(MuxReport::Command(Cmd::UnMarkDirty));
    }

    /// The bytes that wait.
    fn waiting_bytes(&self) -> (r: u128)
        ensures
            r == waiting_size(self@),
            r <= 2 * usize::MAX,
    {
        proof {
            reveal(PacketHandler::state);
            reveal(PacketHandler::wf);
        }
        self.out_buff_v.size() as u128 + self.out_buff_a.size() as u128
    }

    fn buffer_is_full(&self) -> (r: bool)
        requires
            self.wf(),
        ensures
            r == buffer_full(self@),
    {
        proof {
            reveal(PacketHandler::state);
            reveal(PacketHandler::wf);
        }
        self.waiting_bytes() > self.max_buff_size || self.out_buff_v.duration() > 2
            * self.buffer_duration_ms
    }

    fn buffer_is_empty(&self) -> (r: bool)
        ensures
            r == buffer_empty(self@),
    {
        proof {
            reveal(PacketHandler::state);
            reveal(PacketHandler::wf);
        }
        self.waiting_bytes() < self.min_buff_size
    }

    fn is_buffer_drain(&self) -> (r: bool)
        ensures
            r == buffer_drained(self@),
    {
        proof {
            reveal(PacketHandler::state);
            reveal(PacketHandler::wf);
        }
        self.out_buff_v.duration() < self.buffer_duration_ms
    }

    /// Whether input can be worked on.
    pub fn has_work(&self) -> (r: bool)
        ensures
            r == work_to_do(self@),
    {
        proof {
            reveal(PacketHandler::state);
            reveal(PacketHandler::wf);
        }
        if self.is_ready && !self.is_buffer_drain() {
            return false;
        }
        let len: usize = buffer_len(&self.in_buff);
        if !self.is_sync {
            return len >= MUX_BUFFER_SIZE;
        }
        len >= TS_PACKET_SIZE
    }

    /// The packet at the head of the input, if there is a whole one. Where the
    /// handler waits for the cipher, it is the one that is scrambled.
    pub fn head_packet(&self) -> (r: Option<Vec<u8>>)
        ensures
            r is Some == (self@.in_buff.len() >= 188),
            r matches Some(p) ==> p@ == self@.in_buff.take(188),
    {
        proof {
            reveal(PacketHandler::state);
        }
        let data = buffer_slice(&self.in_buff);
        if data.len() < TS_PACKET_SIZE {
            return None;
        }
        let mut packet: Vec<u8> = Vec::new();
        packet.extend_from_slice(vstd::slice::slice_subrange(data, 0, TS_PACKET_SIZE));
        assert(packet@ =~= self@.in_buff.take(188));
        Some(packet)
    }

    /// Counts a packet of payload.
    fn count_payload(&mut self)
        requires
            old(self).wf(),
        ensures
            final(self).wf(),
            final(self)@ == (MuxState {
                n_payload: old(self)@.n_payload.wrapping_add(1),
                ..old(self)@
            }),
    {
        proof {
            reveal(PacketHandler::state);
            reveal(PacketHandler::wf);
        }
        self.count_payload_packets = self.count_payload_packets.wrapping_add(1);
    }

    /// Counts a null packet.
    fn count_null(&mut self)
        requires
            old(self).wf(),
        ensures
            final(self).wf(),
            final(self)@ == (MuxState { n_null: old(self)@.n_null.wrapping_add(1), ..old(self)@ }),
    {
        proof {
            reveal(PacketHandler::state);
            reveal(PacketHandler::wf);
        }
        self.count_null_packets = self.count_null_packets.wrapping_add(1);
    }

    /// Counts a packet of a table.
    fn count_table(&mut self)
        requires
            old(self).wf(),
        ensures
            final(self).wf(),
            final(self)@ == (MuxState { n_psi: old(self)@.n_psi.wrapping_add(1), ..old(self)@ }),
    {
        proof {
            reveal(PacketHandler::state);
            reveal(PacketHandler::wf);
        }
        self.count_psi_packets = self.count_psi_packets.wrapping_add(1);
    }

    /// Counts a null packet that lets the buffer fill up.
    fn count_filling(&mut self)
        requires
            old(self).wf(),
        ensures
            final(self).wf(),
            final(self)@ == (MuxState {
                n_adjust: old(self)@.n_adjust.wrapping_add(1),
                ..old(self)@
            }),
    {
        proof {
            reveal(PacketHandler::state);
            reveal(PacketHandler::wf);
        }
        self.count_adjust_packets = self.count_adjust_packets.wrapping_add(1);
    }

    /// Whether anything is sent at all.
    fn is_sending(&self) -> (r: bool)
        ensures
            r == sending(self@),
    {
        proof {
            reveal(PacketHandler::state);
        }
        !self.dirty && self.is_ready
    }

    /// How much input there is.
    fn in_len(&self) -> (r: usize)
        ensures
            r == self@.in_buff.len(),
    {
        proof {
            reveal(PacketHandler::state);
        }
        buffer_len(&self.in_buff)
    }

    /// The packet of the input at a place.
    fn packet_of_input(&self, pos: usize) -> (r: [u8; TS_PACKET_SIZE])
        requires
            pos + 188 <= self@.in_buff.len(),
        ensures
            r@ == self@.in_buff.subrange(pos as int, pos + 188),
    {
        proof {
            reveal(PacketHandler::state);
        }
        packet_at(buffer_slice(&self.in_buff), pos)
    }

    /// Drops the first bytes of the input.
    fn consume(&mut self, n: usize)
        requires
            old(self).wf(),
            n <= old(self)@.in_buff.len(),
        ensures
            final(self).wf(),
            final(self)@ == consumed(old(self)@, n as int),
    {
        proof {
            reveal(PacketHandler::state);
            reveal(PacketHandler::wf);
        }
        buffer_advance(&mut self.in_buff, n);
    }

    /// The input has to be synchronised anew.
    fn lose_sync(&mut self)
        requires
            old(self).wf(),
        ensures
            final(self).wf(),
            final(self)@ == (MuxState { is_sync: false, ..old(self)@ }),
    {
        proof {
            reveal(PacketHandler::state);
            reveal(PacketHandler::wf);
        }
        self.is_sync = false;
    }

    /// Whether enough waits, so that input is left for later.
    fn is_saturated(&self) -> (r: bool)
        ensures
            r == (self@.is_async && self@.is_ready && !buffer_drained(self@)),
    {
        proof {
            reveal(PacketHandler::state);
        }
        self.is_buffer_process_async && self.is_ready && !self.is_buffer_drain()
    }

    /// The times that are known for a stream.
    fn known_times(&self, pid: u16) -> (r: Option<(u64, u64)>)
        ensures
            r == if self@.last_times.contains_key(pid) {
                Some(self@.last_times[pid])
            } else {
                None
            },
    {
        proof {
            reveal(PacketHandler::state);
        }
        match self.last_pts_dts.get(&pid) {
            Some(times) => Some(*times),
            None => None,
        }
    }

    fn note_times(&mut self, pid: u16, pts: u64, dts: u64)
        requires
            old(self).wf(),
        ensures
            final(self).wf(),
            final(self)@ == (MuxState {
                last_times: old(self)@.last_times.insert(pid, (pts, dts)),
                ..old(self)@
            }),
    {
        proof {
            reveal(PacketHandler::state);
            reveal(PacketHandler::wf);
        }
        self.last_pts_dts.insert(pid, (pts, dts));
    }

    /// Whether packets of the program map are looked at.
    fn wants_pmt(&self) -> (r: bool)
        ensures
            r == (!self@.pmt_ready || !self@.is_ready),
    {
        proof {
            reveal(PacketHandler::state);
        }
        !self.pmt_ready || !self.is_ready
    }

    /// Lets the clock follow a reference that went out.
    fn follow_clock(&mut self, first_pcr: Option<u64>)
        requires
            old(self).wf(),
        ensures
            final(self).wf(),
            final(self)@ == clock_followed(old(self)@, first_pcr),
    {
        proof {
            reveal(PacketHandler::state);
            reveal(PacketHandler::wf);
        }
        if let Some(pcr) = first_pcr {
            if let Some(clock) = self.pcr_restamper {
                let mut clock = clock;
                clock.first_pcr_value = Some(pcr);
                self.pcr_restamper = Some(clock);
            }
        }
    }

    fn frame_len(&self) -> (r: usize)
        ensures
            r == self@.frame.len(),
    {
        proof {
            reveal(PacketHandler::state);
        }
        buffer_len(&self.frame_buff)
    }

    fn extend_frame(&mut self, run: &Bytes)
        requires
            old(self).wf(),
            old(self)@.frame.len() < 8192,
            shared_bytes(*run).len() <= 66_000,
        ensures
            final(self).wf(),
            final(self)@ == (MuxState {
                frame: old(self)@.frame + shared_bytes(*run),
                ..old(self)@
            }),
    {
        proof {
            reveal(PacketHandler::state);
            reveal(PacketHandler::wf);
        }
        buffer_extend(&mut self.frame_buff, shared_slice(run));
    }

    fn split_frame(&mut self) -> (r: Bytes)
        requires
            old(self).wf(),
            old(self)@.frame.len() >= 8192,
        ensures
            final(self).wf(),
            final(self)@ == (MuxState { frame: old(self)@.frame.skip(8192), ..old(self)@ }),
            shared_bytes(r) == old(self)@.frame.take(8192),
    {
        proof {
            reveal(PacketHandler::state);
            reveal(PacketHandler::wf);
        }
        buffer_freeze(buffer_split_to(&mut self.frame_buff, FRAME_BUFFER_SIZE))
    }

    /// A section that a packet completes.
    fn push_section(&mut self, pkt: &[u8]) -> (r: Option<Vec<u8>>)
        requires
            old(self).wf(),
        ensures
            final(self).wf(),
            final(self)@ == (MuxState {
                pending: map_reassembled(old(self)@.pending, pkt@).0,
                ..old(self)@
            }),
            r is Some == map_reassembled(old(self)@.pending, pkt@).1 is Some,
            r matches Some(s) ==> map_reassembled(old(self)@.pending, pkt@).1 == Some(s@),
    {
        proof {
            reveal(PacketHandler::state);
            reveal(PacketHandler::wf);
        }
        self.psi_reasm.push(pkt)
    }

    fn pat_section(&mut self, section: &Vec<u8>)
        requires
            old(self).wf(),
            has_program(old(self)@.output),
        ensures
            final(self).wf(),
            final(self)@ == with_pat_section(old(self)@, section@),
    {
        proof {
            reveal(PacketHandler::state);
            reveal(PacketHandler::wf);
        }
        if section.len() < 4 {
            return ;
        }
        let pat_info = analyze_pat(section.as_slice());
        if !self.pat_ready {
            if section.len() < 8 {
                return ;
            }
            let mapping: [(u16, u16); 1] = [
                (self.output.programs[0].program_id, self.output.programs[0].pmt_pid),
            ];
            let patched = patch_pat_section(section.as_slice(), mapping.as_slice());
            assert(mapping@ =~= seq![
                (program_of(old(self)@).program_id, program_of(old(self)@).pmt_pid),
            ]);
            let cc: u8 = cached_cc(&self.pat);
            self.report(MuxReport::PatFound(analyze_pat(section.as_slice())));
            self.report(MuxReport::PatPatched(analyze_pat(patched.as_slice())));
            self.pat_info = pat_info;
            self.pat = pack(patched.as_slice(), 0, cc);
            self.pat_ready = true;
        } else if is_pat_changed(self.pat_info.as_slice(), pat_info.as_slice()) {
            self.report(MuxReport::PatChanged);
            self.mark_dirty();
        } else if self.dirty {
            self.report(MuxReport::PatRestored);
            self.unmark_dirty();
        }
    }

    fn pat_packet(&mut self, pkt: &[u8])
        requires
            old(self).wf(),
            has_program(old(self)@.output),
        ensures
            final(self).wf(),
            final(self)@ == with_pat_packet(old(self)@, pkt@),
    {
        proof {
            reveal(PacketHandler::state);
            reveal(PacketHandler::wf);
        }
        if !self.pat_ready || !self.is_ready {
            if let Some(section) = self.push_section(pkt) {
                self.pat_section(&section);
            }
        }
    }

    /// The streams of the program under their own identifiers, video first.
    fn kept_pids(&self) -> (r: Vec<(u16, u16)>)
        requires
            has_program(self@.output),
        ensures
            r@ == kept_streams(program_of(self@)),
    {
        proof {
            reveal(PacketHandler::state);
            reveal(PacketHandler::wf);
        }
        let program = &self.output.programs[0];
        let mut mapping: Vec<(u16, u16)> = Vec::new();
        let mut i: usize = 0;
        while i < program.video_pids.len()
            invariant
                i <= program.video_pids@.len(),
                mapping@.len() == i,
                forall|j: int| 0 <= j < i ==> #[trigger] mapping@[j] == (
                    program.video_pids@[j],
                    program.video_pids@[j],
                ),
            decreases program.video_pids@.len() - i,
        {
            mapping.push((program.video_pids[i], program.video_pids[i]));
            i = i + 1;
        }
        let n: usize = program.video_pids.len();
        i = 0;
        while i < program.audio_pids.len()
            invariant
                i <= program.audio_pids@.len(),
                n == program.video_pids@.len(),
                mapping@.len() == n + i,
                forall|j: int| 0 <= j < n ==> #[trigger] mapping@[j] == (
                    program.video_pids@[j],
                    program.video_pids@[j],
                ),
                forall|j: int| n <= j < n + i ==> #[trigger] mapping@[j] == (
                    program.audio_pids@[j - n],
                    program.audio_pids@[j - n],
                ),
            decreases program.audio_pids@.len() - i,
        {
            mapping.push((program.audio_pids[i], program.audio_pids[i]));
            i = i + 1;
        }
        assert(mapping@ =~= kept_streams(program_of(self@)));
        mapping
    }

    fn pmt_section(&mut self, section: &Vec<u8>, pid: u16)
        requires
            old(self).wf(),
            has_program(old(self)@.output),
        ensures
            final(self).wf(),
            final(self)@ == with_pmt_section(old(self)@, section@, pid),
    {
        proof {
            reveal(PacketHandler::state);
            reveal(PacketHandler::wf);
        }
        let info = match try_analyze_pmt(section.as_slice()) {
            Some(info) => info,
            None => return ,
        };
        if !self.pmt_ready {
            let mapping = self.kept_pids();
            let strip_ca = self.output.ca_flag == CA_FLAG_UNSCRAMBLED;
            let patched = match try_patch_pmt_section(
                section.as_slice(),
                info.pcr_pid,
                mapping.as_slice(),
                strip_ca,
            ) {
                Some(patched) => patched,
                None => return ,
            };
            let cc: u8 = cached_cc(&self.pmt);
            if let Some(found) = try_analyze_pmt(section.as_slice()) {
                self.report(MuxReport::PmtFound(found));
            }
            if let Some(shown) = try_analyze_pmt(patched.as_slice()) {
                self.report(MuxReport::PmtPatched(shown));
            }
            self.pmt_info = Some(info);
            self.pmt = pack(patched.as_slice(), pid, cc);
            self.pmt_ready = true;
        } else {
            let changed = match &self.pmt_info {
                Some(current) => is_pmt_changed(current, &info),
                None => return ,
            };
            if changed {
                self.report(MuxReport::PmtChanged);
                self.mark_dirty();
            } else if self.dirty {
                self.report(MuxReport::PmtRestored);
                self.unmark_dirty();
            }
        }
    }

    fn pmt_packet(&mut self, pkt: &[u8])
        requires
            old(self).wf(),
            has_program(old(self)@.output),
            pkt@.len() >= 188,
        ensures
            final(self).wf(),
            final(self)@ == with_pmt_packet(old(self)@, pkt@),
    {
        proof {
            reveal(PacketHandler::state);
            reveal(PacketHandler::wf);
        }
        let pid = pkt_pid(pkt);
        if let Some(section) = self.push_section(pkt) {
            self.pmt_section(&section, pid);
        }
    }

    fn pat_transport_stream_id(&self) -> (r: u16)
        ensures
            r == transport_stream_id(self@),
    {
        proof {
            reveal(PacketHandler::state);
            reveal(PacketHandler::wf);
        }
        join16(self.pat[8], self.pat[9])
    }

    /// Writes the description of the program.
    fn set_sdt(&mut self, service_type: u8, provider: &str, service: &str)
        requires
            old(self).wf(),
            has_program(old(self)@.output),
        ensures
            final(self).wf(),
            final(self)@ == with_sdt(old(self)@, service_type, provider@, service@),
    {
        proof {
            reveal(PacketHandler::state);
            reveal(PacketHandler::wf);
        }
        self.sdt =
        prepare_sdt(
            self.pat_transport_stream_id(),
            self.output.programs[0].program_id,
            service_type,
            provider,
            service,
        );
        self.sdt_ready = true;
    }

    fn sdt_section(&mut self, section: &Vec<u8>)
        requires
            old(self).wf(),
            has_program(old(self)@.output),
        ensures
            final(self).wf(),
            final(self)@ == with_sdt_section(old(self)@, section@),
    {
        proof {
            reveal(PacketHandler::state);
            reveal(PacketHandler::wf);
        }
        let services = match try_analyze_sdt(section.as_slice()) {
            Some(services) => services,
            None => return ,
        };
        if services.len() == 0 {
            return ;
        }
        if let Some(found) = try_analyze_sdt(section.as_slice()) {
            self.report(MuxReport::SdtFound(found));
        }
        let id: u16 = self.output.programs[0].program_id;
        let at: usize = match find_service(&services, id) {
            Some(at) => at,
            None => {
                self.report(MuxReport::SdtMissing(id));
                return ;
            },
        };
        let found = &services[at];
        assert(services_view(services@)[at as int] == found@);
        let service_type = choose_type(self.output.programs[0].service_type, found.service_type);
        let provider = choose_name(
            self.output.programs[0].service_provider_name.as_str(),
            found.provider_name.as_str(),
        );
        let service = choose_name(
            self.output.programs[0].service_name.as_str(),
            found.service_name.as_str(),
        );
        self.set_sdt(service_type, provider.as_str(), service.as_str());
        self.report(MuxReport::SdtPatched(services));
    }

    fn sdt_packet(&mut self, pkt: &[u8])
        requires
            old(self).wf(),
            has_program(old(self)@.output),
        ensures
            final(self).wf(),
            final(self)@ == with_sdt_packet(old(self)@, pkt@),
    {
        proof {
            reveal(PacketHandler::state);
            reveal(PacketHandler::wf);
        }
        if self.pat_ready && !self.sdt_ready {
            if let Some(section) = self.push_section(pkt) {
                self.sdt_section(&section);
            }
        }
    }

    fn update_cc(&mut self, pid: u16)
        requires
            old(self).wf(),
        ensures
            final(self).wf(),
            final(self)@ == (MuxState {
                cc_errors: with_cc_error(old(self)@.cc_errors, pid),
                ..old(self)@
            }),
    {
        proof {
            reveal(PacketHandler::state);
            reveal(PacketHandler::wf);
        }
        let count: usize = match self.cc_errors.get(&pid) {
            Some(n) => n.wrapping_add(1),
            None => 1,
        };
        self.cc_errors.insert(pid, count);
    }

    fn check_cc(&mut self, packet: &[u8], pid: u16)
        requires
            old(self).wf(),
            packet@.len() >= 4,
        ensures
            final(self).wf(),
            final(self)@ == cc_checked(old(self)@, packet@, pid),
    {
        proof {
            reveal(PacketHandler::state);
            reveal(PacketHandler::wf);
        }
        if pkt_has_payload(packet) {
            let current: u8 = packet[3] % 16;
            let expected: Option<u8> = match self.last_cc.get(&pid) {
                Some(last) => Some((*last % 16 + 1) % 16),
                None => None,
            };
            if let Some(expected) = expected {
                if current != expected {
                    self.report(MuxReport::WrongCounter { pid, received: current, expected });
                    self.update_cc(pid);
                }
            }
            self.last_cc.insert(pid, current);
        }
    }

    /// Queues a packet with the times that are known for its stream.
    fn queue_packet(&mut self, pkt: &[u8; TS_PACKET_SIZE], pid: u16, pusi: bool, leap: bool)
        requires
            old(self).wf(),
            has_program(old(self)@.output),
        ensures
            final(self).wf(),
            final(self)@ == queued(old(self)@, pkt@, pid, pusi, leap),
    {
        proof {
            reveal(PacketHandler::state);
            reveal(PacketHandler::wf);
        }
        let (pts, dts): (u64, u64) = match self.last_pts_dts.get(&pid) {
            Some(times) => *times,
            None => return ,
        };
        let video = self.is_video_pid(pid);
        let audio = self.is_audio_pid(pid);
        if video {
            let mut waiting = TsPacket::new(*pkt, pid, pts, dts, pusi, leap);
            waiting.extract_pcr();
            self.out_buff_v.push_back(waiting);
        }
        if audio {
            let waiting = TsPacket::new(*pkt, pid, pts, dts, pusi, false);
            self.out_buff_a.push_back(waiting);
        }
    }

    fn check_size(&mut self)
        requires
            old(self).wf(),
        ensures
            final(self).wf(),
            final(self)@ == size_checked(old(self)@),
    {
        proof {
            reveal(size_checked);
            reveal(PacketHandler::state);
            reveal(PacketHandler::wf);
        }
        if !self.check_buffer_size || !self.is_ready {
            return ;
        }
        let video: usize = self.video_bytes();
        let audio: usize = self.audio_bytes();
        if self.buffer_is_empty() {
            let min: u64 = show_size(self.min_buff_size);
            self.report(MuxReport::BufferEmpty { video, audio, min });
        } else if self.buffer_is_full() {
            let max: u64 = show_size(self.max_buff_size);
            let duration: u64 = self.out_buff_v.duration();
            self.report(MuxReport::BufferFull { video, audio, max, duration });
        } else {
            return ;
        }
        self.buffers_clear();
        self.last_pts_dts = HashMap::new();
    }

    /// Whether the decoding time of a stream leaps ahead, which is reported.
    fn check_leap(&mut self, pid: u16, dts: u64) -> (r: bool)
        requires
            old(self).wf(),
        ensures
            final(self).wf(),
            r == dts_leap(old(self)@, pid, dts),
            final(self)@ == leap_noted(old(self)@, pid, dts),
    {
        let ms: u64 = match self.known_times(pid) {
            Some(last) => match dts_forward_delta_ms(dts, last.1) {
                Some(ms) => ms,
                None => return false,
            },
            None => return false,
        };
        if ms <= DISCONTINUITY_THRESHOLD_MS {
            return false;
        }
        let video: usize = self.video_bytes();
        let audio: usize = self.audio_bytes();
        self.report(MuxReport::Leap { pid, ms, video, audio });
        true
    }

    fn media_packet(&mut self, pkt: &[u8; TS_PACKET_SIZE])
        requires
            old(self).wf(),
            has_program(old(self)@.output),
        ensures
            final(self).wf(),
            final(self)@ == with_media_packet(old(self)@, pkt@),
    {
        self.count_media(pkt);
        self.queue_media(pkt);
        self.check_size();
    }

    fn count_media(&mut self, pkt: &[u8; TS_PACKET_SIZE])
        requires
            old(self).wf(),
            has_program(old(self)@.output),
        ensures
            final(self).wf(),
            final(self)@ == media_counted(old(self)@, pkt@),
            has_program(final(self)@.output),
    {
        proof {
            reveal(media_counted);
        }
        let pid = pkt_pid(pkt.as_slice());
        if !pkt_get_discontinuity(pkt.as_slice()) {
            self.check_cc(pkt.as_slice(), pid);
        }
    }

    fn queue_media(&mut self, pkt: &[u8; TS_PACKET_SIZE])
        requires
            old(self).wf(),
            has_program(old(self)@.output),
        ensures
            final(self).wf(),
            final(self)@ == media_queued(old(self)@, pkt@),
    {
        proof {
            reveal(media_queued);
        }
        let pid = pkt_pid(pkt.as_slice());
        let announced = pkt_get_discontinuity(pkt.as_slice());
        match pkt_pts_dts(pkt.as_slice(), pid) {
            Some((pts, dts)) => {
                let leap = self.check_leap(pid, dts);
                self.note_times(pid, pts, dts);
                self.queue_packet(pkt, pid, true, announced || leap);
            },
            None => {
                self.queue_packet(pkt, pid, false, announced);
            },
        }
    }

    /// Works on one packet of the input.
    fn handle_packet(&mut self, pkt: &[u8; TS_PACKET_SIZE])
        requires
            old(self).wf(),
            has_program(old(self)@.output),
        ensures
            final(self).wf(),
            final(self)@ == with_packet(old(self)@, pkt@),
    {
        proof {
            reveal(with_packet);
        }
        let pid = pkt_pid(pkt.as_slice());
        if pid == 0x1FFF {
        } else if pid == 0x0000 {
            self.pat_packet(pkt.as_slice());
        } else if pid == 0x0011 {
            self.sdt_packet(pkt.as_slice());
        } else if pid == self.get_program().pmt_pid && self.wants_pmt() {
            self.pmt_packet(pkt.as_slice());
        } else if self.is_audio_pid(pid) || self.is_video_pid(pid) {
            self.media_packet(pkt);
        }
    }
}

impl PacketHandler {
    /// Sets the clock back from a decoding time by the delay of the decoder.
    fn resync(&mut self, dts: u64)
        requires
            old(self).wf(),
        ensures
            final(self).wf(),
            final(self)@ == clock_resynced(old(self)@, dts),
            final(self)@.output == old(self)@.output,
    {
        proof {
            reveal(PacketHandler::state);
            reveal(PacketHandler::wf);
            reveal(clock_resynced);
        }
        if let Some(clock) = self.pcr_restamper {
            let mut clock = clock;
            clock.resync(dts_forward(dts, DTS_PCR_DIFF));
            self.pcr_restamper = Some(clock);
        }
    }

    /// Reports that the buffer is full enough.
    fn report_ready(&mut self)
        requires
            old(self).wf(),
            duration_of(old(self)@.video) > 0,
        ensures
            final(self).wf(),
            final(self)@ == noted(old(self)@, ready_note(old(self)@)),
    {
        proof {
            reveal(PacketHandler::state);
            reveal(ready_note);
        }
        let ms: u64 = self.out_buff_v.duration();
        let duration: u128 = ms as u128;
        let size: u128 = self.waiting_bytes();
        let ready = MuxReport::Ready {
            duration: ms,
            bitrate: show_size(size * 8 / duration),
            size: show_size(size),
            min: show_size(size * 1000 / duration / 2),
        };
        self.report(ready);
    }

    /// Sets the limits and the clock by what the buffer holds, and lets sending
    /// start.
    fn start_sending(&mut self, now: &UtcTime)
        requires
            old(self).wf(),
            old(self)@.video.len() > 0,
            duration_of(old(self)@.video) > 0,
        ensures
            final(self).wf(),
            final(self)@ == started(old(self)@, now.secs),
    {
        proof {
            reveal(PacketHandler::state);
            reveal(PacketHandler::wf);
            reveal(clock_resynced);
        }
        let duration: u128 = self.out_buff_v.duration() as u128;
        let size: u128 = self.waiting_bytes();
        let buffer_ms: u128 = self.buffer_duration_ms as u128;
        let first_dts: u64 = match self.out_buff_v.front() {
            Some(first) => first.dts,
            None => 0,
        };
        assert(size * buffer_ms <= 0x2_0000_0000_0000_0000 * 0x1_0000_0000) by (nonlinear_arith)
            requires
                size <= 0x2_0000_0000_0000_0000,
                buffer_ms <= 0x1_0000_0000,
        ;
        self.report_ready();
        self.min_buff_size = size * 1000 / duration / 2;
        self.max_buff_size = size * buffer_ms * 2 / duration;
        if let Some(clock) = self.pcr_restamper {
            if clock.target_bitrate_bps == 0 {
                let mut clock = clock;
                clock.target_bitrate_bps = bitrate_of(size, duration);
                self.pcr_restamper = Some(clock);
            }
        }
        self.resync(first_dts);
        self.fps = self.calculate_fps();
        self.is_ready = true;
        self.cc_errors = HashMap::new();
        self.stats.update_ready_time(now);
    }

    /// Lets sending start once the tables are there and enough video waits.
    fn check_start(&mut self, now: &UtcTime)
        requires
            old(self).wf(),
            has_program(old(self)@.output),
        ensures
            final(self).wf(),
            final(self)@ == start_checked(old(self)@, now.secs),
    {
        proof {
            reveal(start_checked);
            reveal(PacketHandler::state);
            reveal(PacketHandler::wf);
        }
        if self.is_ready || !self.pat_ready || !self.pmt_ready {
            return ;
        }
        if !self.sdt_ready {
            let service_type = choose_type(self.output.programs[0].service_type, 0);
            let provider = String::from_str(
                trim(self.output.programs[0].service_provider_name.as_str()),
            );
            let service = String::from_str(trim(self.output.programs[0].service_name.as_str()));
            self.set_sdt(service_type, provider.as_str(), service.as_str());
            self.report(MuxReport::SdtGenerated);
        }
        let (first, last): (u64, u64) = match (self.out_buff_v.front(), self.out_buff_v.back()) {
            (Some(first), Some(last)) => (first.dts, last.dts),
            _ => return ,
        };
        if dts_after(first, last) {
            self.report(MuxReport::WrongOrder { first, last });
            self.buffers_clear();
        } else if self.out_buff_v.duration() >= self.buffer_duration_ms {
            self.start_sending(now);
        }
    }

    /// Works on the packets of the input. `head_done` says that the first one
    /// has been through the descrambler.
    fn run_input(&mut self, head_done: bool, now: &UtcTime) -> (r: Step)
        requires
            old(self).wf(),
            has_program(old(self)@.output),
        ensures
            final(self).wf(),
            has_program(final(self)@.output),
            (final(self)@, r) == run_from(old(self)@, 0, head_done, now.secs),
    {
        let ghost whole = run_from(self@, 0, head_done, now.secs);
        let len: usize = self.in_len();
        let mut pos: usize = 0;
        let mut done = head_done;
        while len - pos >= TS_PACKET_SIZE && !self.is_saturated()
            invariant
                self.wf(),
                has_program(self@.output),
                pos <= len,
                len == self@.in_buff.len(),
                whole == run_from(old(self)@, 0, head_done, now.secs),
                run_from(self@, pos as int, done, now.secs) == whole,
            decreases len - pos,
        {
            let ghost before = self@;
            let pkt = self.packet_of_input(pos);
            if pkt[0] != TS_SYNC_BYTE {
                self.consume(pos);
                self.lose_sync();
                return Step::Idle;
            }
            if !done {
                if let Some(part) = self.scrambled_media(&pkt) {
                    self.consume(pos);
                    return Step::Descramble(part);
                }
            }
            proof {
                lemma_packet_keeps_input(before, pkt@);
            }
            self.handle_packet(&pkt);
            assert(self@ =~= MuxState { in_buff: before.in_buff, ..with_packet(before, pkt@) });
            pos = pos + TS_PACKET_SIZE;
            done = false;
        }
        self.consume(pos);
        proof {
            lemma_start_keeps_output(self@, now.secs);
        }
        self.check_start(now);
        Step::Idle
    }

    /// Works on the input, once it is synchronised.
    fn process(&mut self, head_done: bool, now: &UtcTime) -> (r: Step)
        requires
            old(self).wf(),
            has_program(old(self)@.output),
        ensures
            final(self).wf(),
            has_program(final(self)@.output),
            (final(self)@, r) == processed(old(self)@, head_done, now.secs),
    {
        proof {
            reveal(PacketHandler::state);
            reveal(PacketHandler::wf);
        }
        if !self.is_sync {
            proof {
                lemma_synced_len(old(self)@.in_buff);
            }
            self.is_sync = Self::sync_buffer(&mut self.in_buff);
            if !self.is_sync {
                return Step::Idle;
            }
        }
        self.run_input(head_done, now)
    }

    /// The part of a packet that has to be descrambled.
    fn scrambled_media(&self, pkt: &[u8; TS_PACKET_SIZE]) -> (r: Option<Scrambled>)
        requires
            has_program(self@.output),
        ensures
            r == to_descramble(self@, pkt@),
    {
        proof {
            reveal(to_descramble);
            reveal(PacketHandler::state);
            reveal(PacketHandler::wf);
        }
        let pid = pkt_pid(pkt.as_slice());
        if self.biss.is_some() && (self.is_video_pid(pid) || self.is_audio_pid(pid)) {
            Biss1Descrambler::scrambled(pkt.as_slice())
        } else {
            None
        }
    }

    /// Takes in a chunk of the input and works on it, unless that is done
    /// separately.
    pub fn write(&mut self, chunk: &Bytes, now: &UtcTime) -> (r: Step)
        requires
            old(self).wf(),
            has_program(old(self)@.output),
        ensures
            final(self).wf(),
            has_program(final(self)@.output),
            (final(self)@, r) == written(old(self)@, shared_bytes(*chunk), now.secs),
    {
        proof {
            reveal(PacketHandler::state);
            reveal(PacketHandler::wf);
        }
        if self.dirty {
            return Step::Idle;
        }
        let data = shared_slice(chunk);
        if data.len() < MAX_BUFFER_SIZE - buffer_len(&self.in_buff) {
            buffer_extend(&mut self.in_buff, data);
        } else {
            let waiting: usize = buffer_len(&self.in_buff);
            self.report(MuxReport::Overflow(waiting));
            self.in_buff = buffer_new(IN_BUFFER_SIZE);
            self.is_sync = false;
        }
        if self.is_buffer_process_async {
            return Step::Idle;
        }
        self.process(false, now)
    }

    /// Works on the input that was taken in.
    pub fn process_input(&mut self, now: &UtcTime) -> (r: Step)
        requires
            old(self).wf(),
            has_program(old(self)@.output),
        ensures
            final(self).wf(),
            has_program(final(self)@.output),
            (final(self)@, r) == processed(old(self)@, false, now.secs),
    {
        self.process(false, now)
    }

    /// Goes on after the packet at the head of the input was descrambled.
    /// `plain` is its payload; without one, or with one that does not fit, the
    /// packet is taken as it is.
    pub fn resume(&mut self, plain: Option<Vec<u8>>, now: &UtcTime) -> (r: Step)
        requires
            old(self).wf(),
            has_program(old(self)@.output),
        ensures
            final(self).wf(),
            has_program(final(self)@.output),
            (final(self)@, r) == processed(
                head_descrambled(old(self)@, bytes_of(plain)),
                true,
                now.secs,
            ),
    {
        if let Some(plain) = plain {
            self.write_plain(&plain);
        }
        self.process(true, now)
    }

    fn write_plain(&mut self, plain: &Vec<u8>)
        requires
            old(self).wf(),
        ensures
            final(self).wf(),
            final(self)@ == head_descrambled(old(self)@, Some(plain@)),
            final(self)@.output == old(self)@.output,
    {
        proof {
            reveal(PacketHandler::state);
            reveal(PacketHandler::wf);
        }
        let ghost b = self@.in_buff;
        if buffer_len(&self.in_buff) < TS_PACKET_SIZE {
            return ;
        }
        let pkt = packet_at(buffer_slice(&self.in_buff), 0);
        assert(pkt@ =~= b.take(188));
        let offset: usize = match Biss1Descrambler::scrambled(pkt.as_slice()) {
            Some(part) => part.offset,
            None => return ,
        };
        if plain.len() != TS_PACKET_SIZE - offset {
            return ;
        }
        buffer_set(&mut self.in_buff, 3, pkt[3] % 64);
        let ghost marked = b.update(3, (b[3] as int % 64) as u8);
        let mut i: usize = 0;
        while i < plain.len()
            invariant
                i <= plain@.len(),
                plain@.len() == 188 - offset,
                4 <= offset <= 188,
                b.len() >= 188,
                marked.len() == b.len(),
                self@ == (MuxState { in_buff: self@.in_buff, ..old(self)@ }),
                self.wf(),
                self@.in_buff.len() == b.len(),
                forall|j: int|
                    0 <= j < b.len() && !(offset <= j < offset + i) ==> self@.in_buff[j]
                        == marked[j],
                forall|j: int| offset <= j < offset + i ==> self@.in_buff[j] == plain@[j - offset],
            decreases plain@.len() - i,
        {
            proof {
                reveal(PacketHandler::state);
                reveal(PacketHandler::wf);
            }
            buffer_set(&mut self.in_buff, offset + i, plain[i]);
            i = i + 1;
        }
        proof {
            let head = b.take(188).update(3, (b.take(188)[3] as int % 64) as u8);
            assert forall|j: int| 0 <= j < offset implies #[trigger] head[j]
                == self@.in_buff[j] by {
                assert(marked[j] == self@.in_buff[j]);
            }
            assert forall|j: int| 188 <= j < b.len() implies #[trigger] b[j]
                == self@.in_buff[j] by {
                assert(marked[j] == self@.in_buff[j]);
            }
            assert(head.take(offset as int) =~= self@.in_buff.take(offset as int));
            assert(self@.in_buff =~= descrambled(b.take(188), plain@) + b.skip(188));
        }
    }
}

impl PacketHandler {
    /// What the clock of what is sent shows.
    fn clock(&self) -> (r: Option<u64>)
        ensures
            r == clock_of(self@),
            r matches Some(pcr) ==> pcr < PCR_CYCLE,
    {
        proof {
            reveal(PacketHandler::state);
            reveal(PacketHandler::wf);
        }
        match &self.pcr_restamper {
            Some(clock) => clock.get_pcr(),
            None => None,
        }
    }

    /// Counts packets for the clock.
    fn count_for_clock(&mut self, n: u64)
        requires
            old(self).wf(),
        ensures
            final(self).wf(),
            final(self)@ == clock_counted(old(self)@, n),
            final(self)@.output == old(self)@.output,
    {
        proof {
            reveal(PacketHandler::state);
            reveal(PacketHandler::wf);
            reveal(clock_counted);
        }
        if let Some(clock) = self.pcr_restamper {
            let mut clock = clock;
            clock.count_packets(n);
            self.pcr_restamper = Some(clock);
        }
    }

    /// Appends the table that is due, if one is, and says how many packets were
    /// appended.
    fn flush_psi_packets(&mut self, out: &mut BytesMut) -> (r: usize)
        requires
            old(self).wf(),
            held_bytes(*old(out)).len() <= 100_000,
        ensures
            final(self).wf(),
            final(self)@ == tables_flushed(old(self)@).0,
            held_bytes(*final(out)) == held_bytes(*old(out)) + tables_flushed(old(self)@).1,
            r == if tables_flushed(old(self)@).1.len() > 0 {
                1int
            } else {
                0
            },
            tables_flushed(old(self)@).1.len() == r * 188,
            final(self)@.output == old(self)@.output,
            final(self)@.frame == old(self)@.frame,
    {
        proof {
            reveal(PacketHandler::state);
            reveal(PacketHandler::wf);
            reveal(tables_flushed);
        }
        let pcr: u64 = match self.clock() {
            Some(pcr) => pcr,
            None => {
                assert(held_bytes(*out) =~= held_bytes(*out) + Seq::<u8>::empty());
                return 0;
            },
        };
        if self.pat_ready && is_table_due(pcr, self.timers.insert_pat, PERIOD_PAT_MS) {
            self.timers.insert_pat = Some(pcr);
            pkt_next(&mut self.pat);
            buffer_extend(out, self.pat.as_slice());
            return 1;
        }
        if self.pmt_ready && is_table_due(pcr, self.timers.insert_pmt, PERIOD_PMT_MS) {
            self.timers.insert_pmt = Some(pcr);
            pkt_next(&mut self.pmt);
            buffer_extend(out, self.pmt.as_slice());
            return 1;
        }
        if self.sdt_ready && is_table_due(pcr, self.timers.insert_sdt, PERIOD_SDT_MS) {
            self.timers.insert_sdt = Some(pcr);
            pkt_next(&mut self.sdt);
            buffer_extend(out, self.sdt.as_slice());
            return 1;
        }
        assert(held_bytes(*out) =~= held_bytes(*out) + Seq::<u8>::empty());
        0
    }

    /// Appends a null packet where the buffer has to fill up, and says how many
    /// packets were appended.
    pub fn flush_adjust_buf_packets(&self, out: &mut BytesMut) -> (r: usize)
        requires
            self.wf(),
            held_bytes(*old(out)).len() <= usize::MAX / 16,
        ensures
            r == if adjust_due(self@) {
                1int
            } else {
                0
            },
            held_bytes(*final(out)) == if adjust_due(self@) {
                held_bytes(*old(out)) + null_packet()
            } else {
                held_bytes(*old(out))
            },
    {
        proof {
            reveal(PacketHandler::state);
            reveal(PacketHandler::wf);
            reveal(adjust_due);
        }
        if self.adjust_buf > 0 && is_below_share(
            self.out_buff_v.duration(),
            self.buffer_duration_ms,
            self.adjust_buf,
        ) {
            buffer_extend(out, ts_null_packet().as_slice());
            1
        } else {
            0
        }
    }

    /// Whether a packet with this time may go out.
    pub fn ready_send(&self, pts_or_dts: u64) -> (r: bool)
        requires
            self.wf(),
        ensures
            r == may_send(self@, pts_or_dts),
    {
        proof {
            reveal(PacketHandler::state);
            reveal(PacketHandler::wf);
            reveal(may_send);
        }
        match self.clock() {
            Some(pcr) => {
                let ticks: u64 = ((pts_or_dts as u128 * 300) % PCR_CYCLE as u128) as u64;
                assert(ticks == pcr_reduced(pts_or_dts * 300));
                let limit = pcr_add(pcr, self.jitter_ms * 27_000);
                !pcr_after(ticks, limit)
            },
            None => false,
        }
    }

    /// Whether video goes out next, and not audio.
    fn video_is_next(&self) -> (r: bool)
        ensures
            r == (self@.video.len() > 0 && (self@.audio.len() == 0 || is_dts_after(
                self@.audio[0].dts,
                self@.video[0].dts,
            ))),
    {
        proof {
            reveal(PacketHandler::state);
            reveal(PacketHandler::wf);
        }
        match (self.out_buff_a.front(), self.out_buff_v.front()) {
            (Some(a), Some(v)) => dts_after(a.dts, v.dts),
            (None, Some(_)) => true,
            _ => false,
        }
    }

    /// The packet that goes out next, if its time has come.
    fn get_a_or_v_ready(&mut self) -> (r: Option<TsPacket>)
        requires
            old(self).wf(),
        ensures
            final(self).wf(),
            final(self)@ == next_packet(old(self)@, true).0,
            r is Some == next_packet(old(self)@, true).1 is Some,
            r matches Some(p) ==> next_packet(old(self)@, true).1 == Some(p@),
            final(self)@.output == old(self)@.output,
            final(self)@.frame == old(self)@.frame,
    {
        proof {
            reveal(PacketHandler::state);
            reveal(PacketHandler::wf);
            reveal(next_packet);
        }
        if self.video_is_next() {
            let dts: u64 = match self.out_buff_v.front() {
                Some(v) => v.dts,
                None => 0,
            };
            if self.ready_send(dts) {
                return self.out_buff_v.pop_front();
            }
            return None;
        }
        let dts: u64 = match self.out_buff_a.front() {
            Some(a) => a.dts,
            None => return None,
        };
        if self.ready_send(dts) {
            return self.out_buff_a.pop_front();
        }
        None
    }

    /// The packet that goes out next.
    fn get_a_or_v(&mut self) -> (r: Option<TsPacket>)
        requires
            old(self).wf(),
        ensures
            final(self).wf(),
            final(self)@ == next_packet(old(self)@, false).0,
            r is Some == next_packet(old(self)@, false).1 is Some,
            r matches Some(p) ==> next_packet(old(self)@, false).1 == Some(p@),
            final(self)@.output == old(self)@.output,
            final(self)@.frame == old(self)@.frame,
    {
        proof {
            reveal(PacketHandler::state);
            reveal(PacketHandler::wf);
            reveal(next_packet);
        }
        if self.video_is_next() {
            self.out_buff_v.pop_front()
        } else {
            self.out_buff_a.pop_front()
        }
    }

    /// The first packet of video.
    fn get_v(&mut self) -> (r: Option<TsPacket>)
        requires
            old(self).wf(),
        ensures
            final(self).wf(),
            old(self)@.video.len() == 0 ==> r is None && final(self)@ == old(self)@,
            old(self)@.video.len() > 0 ==> r is Some && r->0@ == old(self)@.video[0]
                && final(self)@ == (MuxState {
                video: old(self)@.video.drop_first(),
                ..old(self)@
            }),
    {
        proof {
            reveal(PacketHandler::state);
            reveal(PacketHandler::wf);
        }
        self.out_buff_v.pop_front()
    }

    /// Holds a decoding time against the clock.
    fn dts_drift(&mut self, pid: u16, dts: u64) -> (r: i64)
        requires
            old(self).wf(),
        ensures
            final(self).wf(),
            r == lead_ms(old(self)@, dts),
            final(self)@ == (MuxState {
                stats: StatsModel {
                    dts_drift: old(self)@.stats.dts_drift.insert(pid, lead_ms(old(self)@, dts)),
                    ..old(self)@.stats
                },
                ..old(self)@
            }),
            final(self)@.output == old(self)@.output,
    {
        proof {
            reveal(PacketHandler::state);
            reveal(PacketHandler::wf);
            reveal(lead_ms);
        }
        let lead: i64 = match self.clock() {
            Some(pcr) => truncating_div(dts_signed_delta(dts, pcr / 300), 90),
            None => 0,
        };
        self.stats.update_dts_drift(pid, lead);
        lead
    }

    /// Holds a decoding time against the clock and sets it back where the time
    /// has passed.
    fn check_drift(&mut self, pid: u16, dts: u64)
        requires
            old(self).wf(),
        ensures
            final(self).wf(),
            final(self)@ == drift_checked(old(self)@, pid, dts),
            final(self)@.output == old(self)@.output,
    {
        proof {
            reveal(drift_checked);
        }
        let lead: i64 = self.dts_drift(pid, dts);
        if lead < 0 {
            self.resync(dts);
        }
    }

    /// Notes by how many milliseconds a clock reference leads the clock.
    fn pcr_drift(&mut self, orig_pcr: u64, current_pcr: u64) -> (r: i64)
        requires
            old(self).wf(),
        ensures
            final(self).wf(),
            r == truncated(pcr_delta(orig_pcr, current_pcr), 27_000),
            final(self)@ == (MuxState {
                stats: StatsModel { pcr_drift: r, ..old(self)@.stats },
                ..old(self)@
            }),
    {
        proof {
            reveal(PacketHandler::state);
            reveal(PacketHandler::wf);
        }
        let lead: i64 = truncating_div(pcr_signed_delta(orig_pcr, current_pcr), 27_000);
        self.stats.update_pcr_drift(lead);
        lead
    }

    /// Writes the clock into a packet that carries a reference.
    fn write_clock(&mut self, data: &mut [u8; TS_PACKET_SIZE])
        requires
            old(self).wf(),
        ensures
            final(self).wf(),
            final(self)@ == clock_written(old(self)@, old(data)@).0,
            final(data)@ == clock_written(old(self)@, old(data)@).1,
            final(self)@.output == old(self)@.output,
    {
        proof {
            reveal(PacketHandler::state);
            reveal(PacketHandler::wf);
            reveal(clock_written);
        }
        if let Some(clock) = self.pcr_restamper {
            let mut clock = clock;
            let orig_pcr = clock.extract_pcr_safe(data);
            let new_pcr = clock.process_packet(data);
            self.pcr_restamper = Some(clock);
            if let (Some(orig), Some(new)) = (orig_pcr, new_pcr) {
                self.pcr_drift(orig, new);
            }
        }
    }

    /// Makes a packet ready to go out.
    fn process_packet(&mut self, pkt: TsPacket) -> (r: [u8; TS_PACKET_SIZE])
        requires
            old(self).wf(),
            has_program(old(self)@.output),
        ensures
            final(self).wf(),
            final(self)@ == sent_packet(old(self)@, pkt@).0,
            r@ == sent_packet(old(self)@, pkt@).1,
            final(self)@.output == old(self)@.output,
    {
        proof {
            reveal(sent_packet);
        }
        let mut data: [u8; TS_PACKET_SIZE] = pkt.data;
        if pkt.discontinuity {
            pkt_set_discontinuity(&mut data);
            self.resync(pkt.dts);
        }
        self.check_drift(pkt.pid, pkt.dts);
        if pkt.pid == self.get_program().pcr_pid {
            self.write_clock(&mut data);
        }
        data
    }

    /// One packet at a constant rate.
    fn next_cbr_packet(&mut self, adjusted: bool) -> (r: [u8; TS_PACKET_SIZE])
        requires
            old(self).wf(),
            has_program(old(self)@.output),
        ensures
            final(self).wf(),
            (final(self)@, r@) == cbr_packet(old(self)@, adjusted),
            final(self)@.output == old(self)@.output,
    {
        self.count_for_clock(1);
        let ghost s1 = self@;
        let due = self.get_a_or_v_ready();
        let ghost s2 = self@;
        let early = if due.is_none() && !adjusted && self.is_input_ahead() {
            self.get_v()
        } else {
            None
        };
        let chosen = if due.is_some() {
            due
        } else {
            early
        };
        let ghost s3 = self@;
        proof {
            reveal(cbr_packet);
        }
        match chosen {
            Some(pkt) => {
                self.count_payload();
                let ghost s4 = self@;
                assert(cbr_packet(old(self)@, adjusted) == sent_packet(s4, pkt@));
                self.process_packet(pkt)
            },
            None => {
                self.count_null();
                assert(cbr_packet(old(self)@, adjusted) == (self@, null_packet()));
                ts_null_packet()
            },
        }
    }

    /// Whether so much input waits that video goes out ahead of its time.
    fn is_input_ahead(&self) -> (r: bool)
        requires
            self.wf(),
        ensures
            r == input_ahead(self@),
    {
        proof {
            reveal(PacketHandler::state);
            reveal(PacketHandler::wf);
            reveal(input_ahead);
        }
        if self.adjust_buf == 0 {
            return false;
        }
        let size: u128 = self.out_buff_v.size() as u128;
        let share: u128 = self.adjust_buf as u128;
        assert(size * share <= 0x1_0000_0000_0000_0000 * 0x1_0000_0000) by (nonlinear_arith)
            requires
                size <= 0x1_0000_0000_0000_0000,
                share <= 0x1_0000_0000,
        ;
        assert(size * share >= 0) by (nonlinear_arith)
            requires
                size >= 0,
                share >= 0,
        ;
        buffer_len(&self.in_buff) as u128 > size * share / 100
    }

    /// Appends the table that is due and counts it.
    fn send_tables(&mut self, out: &mut BytesMut, constant_rate: bool) -> (r: usize)
        requires
            old(self).wf(),
            held_bytes(*old(out)).len() <= 100_000,
        ensures
            final(self).wf(),
            final(self)@ == tables_sent(old(self)@, constant_rate).0,
            held_bytes(*final(out)) == held_bytes(*old(out)) + tables_sent(
                old(self)@,
                constant_rate,
            ).1,
            tables_sent(old(self)@, constant_rate).1.len() == r * 188,
            r <= 1,
            final(self)@.output == old(self)@.output,
            final(self)@.frame == old(self)@.frame,
    {
        proof {
            reveal(tables_sent);
            reveal(clock_counted);
        }
        let tables: usize = self.flush_psi_packets(out);
        if tables > 0 {
            if constant_rate {
                self.count_for_clock(1);
            }
            self.count_table();
        }
        tables
    }

    /// Appends a null packet where the buffer has to fill up and there is room,
    /// and counts it.
    fn send_filling(&mut self, out: &mut BytesMut, room: bool) -> (r: usize)
        requires
            old(self).wf(),
            held_bytes(*old(out)).len() <= 100_000,
        ensures
            final(self).wf(),
            final(self)@ == filling_sent(old(self)@, room).0,
            held_bytes(*final(out)) == held_bytes(*old(out)) + filling_sent(old(self)@, room).1,
            filling_sent(old(self)@, room).1.len() == r * 188,
            r <= 1,
            r > 0 ==> room,
            final(self)@.output == old(self)@.output,
    {
        proof {
            reveal(filling_sent);
            assert(held_bytes(*out) + Seq::<u8>::empty() =~= held_bytes(*out));
        }
        if !room {
            return 0;
        }
        let filled: usize = self.flush_adjust_buf_packets(out);
        if filled > 0 {
            self.count_for_clock(1);
            self.count_filling();
        }
        filled
    }

    /// Appends packets at a constant rate.
    fn send_cbr_packets(&mut self, out: &mut BytesMut, adjusted: bool, n: usize)
        requires
            old(self).wf(),
            has_program(old(self)@.output),
            held_bytes(*old(out)).len() <= 1000,
            n <= 348,
        ensures
            final(self).wf(),
            final(self)@ == cbr_packets(old(self)@, adjusted, n as int).0,
            held_bytes(*final(out)) == held_bytes(*old(out)) + cbr_packets(
                old(self)@,
                adjusted,
                n as int,
            ).1,
            final(self)@.output == old(self)@.output,
    {
        let ghost s0 = self@;
        let ghost head = held_bytes(*out);
        let mut i: usize = 0;
        assert(head + Seq::<u8>::empty() =~= head);
        while i < n
            invariant
                i <= n,
                n <= 348,
                self.wf(),
                has_program(self@.output),
                self@.output == s0.output,
                self@ == cbr_packets(s0, adjusted, i as int).0,
                held_bytes(*out) == head + cbr_packets(s0, adjusted, i as int).1,
                held_bytes(*out).len() <= 1000 + 188 * i,
            decreases n - i,
        {
            let ghost before = held_bytes(*out);
            let data = self.next_cbr_packet(adjusted);
            buffer_extend(out, data.as_slice());
            i = i + 1;
            assert(head + (cbr_packets(s0, adjusted, i - 1).1 + data@) =~= before + data@);
        }
    }

    /// The datagram that goes out next at a constant rate; none as long as
    /// nothing is sent.
    pub fn flush_packet_for_cbr(&mut self) -> (r: Option<Bytes>)
        requires
            old(self).wf(),
            has_program(old(self)@.output),
        ensures
            final(self).wf(),
            final(self)@ == cbr_flushed(old(self)@).0,
            r is Some == cbr_flushed(old(self)@).1 is Some,
            r matches Some(b) ==> cbr_flushed(old(self)@).1 == Some(shared_bytes(b)),
            final(self)@.output == old(self)@.output,
    {
        if !self.is_sending() {
            return None;
        }
        let mut out = buffer_new(self.get_pkt_size() as usize);
        let count: usize = self.get_pkt_size() as usize / TS_PACKET_SIZE;
        let tables: usize = self.send_tables(&mut out, true);
        let ghost table = tables_sent(old(self)@, true).1;
        assert(held_bytes(out) =~= table);
        let room: usize = if count > tables {
            count - tables
        } else {
            0
        };
        let ghost s1 = self@;
        let filled: usize = self.send_filling(&mut out, room > 0);
        let ghost filling = filling_sent(s1, room > 0).1;
        let ghost s2 = self@;
        self.send_cbr_packets(&mut out, filled > 0, room - filled);
        proof {
            let left = count - tables - filled;
            assert(left < 0 ==> cbr_packets(s2, false, left) == cbr_packets(s2, false, 0));
        }
        Some(buffer_freeze(out))
    }

    /// Appends packets as they come, at most `n`, and hands back the first clock
    /// reference among them.
    fn send_packets(&mut self, out: &mut BytesMut, n: usize) -> (r: Option<u64>)
        requires
            old(self).wf(),
            held_bytes(*old(out)).len() <= 1000,
            n <= 348,
        ensures
            final(self).wf(),
            final(self)@ == vbr_packets(old(self)@, n as int).0,
            held_bytes(*final(out)) == held_bytes(*old(out)) + vbr_packets(
                old(self)@,
                n as int,
            ).1,
            r == vbr_packets(old(self)@, n as int).2,
            held_bytes(*final(out)).len() <= held_bytes(*old(out)).len() + 188 * n,
            final(self)@.output == old(self)@.output,
            final(self)@.frame == old(self)@.frame,
    {
        let ghost whole = vbr_packets(self@, n as int);
        let ghost head = held_bytes(*out);
        let mut first_pcr: Option<u64> = None;
        let mut i: usize = 0;
        while i < n
            invariant
                i <= n,
                n <= 348,
                self.wf(),
                self@.output == old(self)@.output,
                self@.frame == old(self)@.frame,
                whole == vbr_packets(old(self)@, n as int),
                head == held_bytes(*old(out)),
                whole.0 == vbr_packets(self@, n - i).0,
                head + whole.1 == held_bytes(*out) + vbr_packets(self@, n - i).1,
                whole.2 == if first_pcr is Some {
                    first_pcr
                } else {
                    vbr_packets(self@, n - i).2
                },
                held_bytes(*out).len() <= head.len() + 188 * i,
                head.len() <= 1000,
            decreases n - i,
        {
            let ghost before = self@;
            let ghost sent = held_bytes(*out);
            let next = self.get_a_or_v();
            let ghost s1 = self@;
            match next {
                Some(pkt) => {
                    self.count_payload();
                    buffer_extend(out, pkt.data.as_slice());
                    if first_pcr.is_none() {
                        first_pcr = pkt.pcr;
                    }
                    i = i + 1;
                    proof {
                        let rest = vbr_packets(self@, n - i).1;
                        assert(vbr_packets(before, n - i + 1).1 == pkt@.data + rest);
                        assert(sent + (pkt@.data + rest) =~= held_bytes(*out) + rest);
                    }
                },
                None => {
                    assert(vbr_packets(before, n - i) == (before, Seq::<u8>::empty(), None::<u64>));
                    proof {
                        reveal(next_packet);
                    }
                    assert(sent + Seq::<u8>::empty() =~= sent);
                    return first_pcr;
                },
            }
        }
        assert(held_bytes(*out) + Seq::<u8>::empty() =~= held_bytes(*out));
        first_pcr
    }

    /// The run of packets that goes out next as they come; none as long as
    /// nothing is sent or nothing waits.
    pub fn flush_packet_for_vbr(&mut self) -> (r: Option<Bytes>)
        requires
            old(self).wf(),
        ensures
            final(self).wf(),
            final(self)@ == vbr_flushed(old(self)@).0,
            r is Some == vbr_flushed(old(self)@).1 is Some,
            r matches Some(b) ==> vbr_flushed(old(self)@).1 == Some(shared_bytes(b)) && 0
                < shared_bytes(b).len() <= 66_000,
            final(self)@.output == old(self)@.output,
            final(self)@.frame == old(self)@.frame,
    {
        if !self.is_sending() {
            return None;
        }
        let pkt_size: usize = self.get_pkt_size() as usize;
        let mut out = buffer_new(pkt_size);
        let count: usize = pkt_size / TS_PACKET_SIZE;
        let tables: usize = self.send_tables(&mut out, false);
        let ghost table = tables_sent(old(self)@, false).1;
        assert(held_bytes(out) =~= table);
        let room: usize = if count > tables {
            count - tables
        } else {
            0
        };
        let ghost s1 = self@;
        let first_pcr = self.send_packets(&mut out, room);
        assert(count - tables < 0 ==> vbr_packets(s1, count - tables) == vbr_packets(s1, 0));
        self.follow_clock(first_pcr);
        if buffer_len(&out) > 0 {
            Some(buffer_freeze(out))
        } else {
            None
        }
    }

    /// A frame of what waits; none until there is enough for a whole one.
    pub fn flush_frame(&mut self) -> (r: Option<Bytes>)
        requires
            old(self).wf(),
        ensures
            final(self).wf(),
            final(self)@ == frame_flushed(old(self)@).0,
            r is Some == frame_flushed(old(self)@).1 is Some,
            r matches Some(b) ==> frame_flushed(old(self)@).1 == Some(shared_bytes(b)),
            final(self)@.output == old(self)@.output,
    {
        if !self.is_sending() {
            return None;
        }
        let ghost s0 = self@;
        let mut more = true;
        while more && self.frame_len() < FRAME_BUFFER_SIZE
            invariant
                self.wf(),
                self@.output == s0.output,
                more ==> frame_filled(self@) == frame_filled(s0),
                !more ==> self@ == frame_filled(s0) && self@.frame.len() < 8192,
            decreases
                    if self@.frame.len() < 8192 {
                        8192 - self@.frame.len()
                    } else {
                        0
                    },
                    if more {
                        1int
                    } else {
                        0
                    },
        {
            let ghost before = self@;
            match self.flush_packet_for_vbr() {
                Some(run) => {
                    self.extend_frame(&run);
                },
                None => {
                    more = false;
                },
            }
        }
        if self.frame_len() >= FRAME_BUFFER_SIZE {
            return Some(self.split_frame());
        }
        None
    }

    /// What passes a proxy of this chunk: the datagrams that are to be sent.
    pub fn proxy_packet(&mut self, chunk: Bytes) -> (r: Vec<Bytes>)
        requires
            old(self).wf(),
            shared_bytes(chunk).len() <= usize::MAX / 16,
        ensures
            final(self).wf(),
            final(self)@ == proxied(old(self)@, shared_bytes(chunk)).0,
            r@.map_values(|b: Bytes| shared_bytes(b)) == proxied(
                old(self)@,
                shared_bytes(chunk),
            ).1,
    {
        proof {
            reveal(PacketHandler::state);
            reveal(PacketHandler::wf);
        }
        let mut packets: Vec<Bytes> = Vec::new();
        if self.output.pkt_size == 0 {
            packets.push(chunk);
            assert(packets@.map_values(|b: Bytes| shared_bytes(b)) =~= seq![shared_bytes(chunk)]);
            return packets;
        }
        let size: usize = self.output.pkt_size as usize;
        buffer_extend(&mut self.in_buff, shared_slice(&chunk));
        let ghost all = held_bytes(self.in_buff);
        assert(packets@.map_values(|b: Bytes| shared_bytes(b)) =~= Seq::<Seq<u8>>::empty());
        if !self.is_sync {
            let found = Self::sync_buffer(&mut self.in_buff);
            if !found {
                proof {
                    lemma_unsynced_len(all);
                }
                return packets;
            }
            self.is_sync = true;
        }
        let ghost b = held_bytes(self.in_buff);
        let ghost whole = datagrams(b, size as int);
        assert(Seq::<Seq<u8>>::empty() + whole =~= whole);
        assert(b.skip(0) =~= b);
        let ghost mut taken: int = 0;
        while buffer_len(&self.in_buff) >= size
            invariant
                size == old(self)@.output.pkt_size,
                size > 0,
                self@ == (MuxState { is_sync: true, in_buff: b.skip(taken), ..old(self)@ }),
                self.out_buff_v.wf(),
                self.out_buff_a.wf(),
                self.psi_reasm.wf(),
                held_bytes(self.frame_buff).len() <= 80_000,
                0 < self.buffer_duration_ms <= u32::MAX,
                30 <= self.jitter_ms <= 3000,
                self.adjust_buf <= u32::MAX,
                0 <= taken <= b.len(),
                taken % size as int == 0,
                packets@.map_values(|b: Bytes| shared_bytes(b)) + datagrams(
                    b.skip(taken),
                    size as int,
                ) == whole,
            decreases held_bytes(self.in_buff).len(),
        {
            proof {
                reveal(PacketHandler::state);
            }
            let ghost rest = held_bytes(self.in_buff);
            let ghost before = packets@;
            let pkt = buffer_freeze(buffer_split_to(&mut self.in_buff, size));
            packets.push(pkt);
            proof {
                let more = datagrams(rest.skip(size as int), size as int);
                assert(packets@.map_values(|b: Bytes| shared_bytes(b)) =~= before.map_values(
                    |b: Bytes| shared_bytes(b),
                ).push(shared_bytes(pkt)));
                assert(before.map_values(|b: Bytes| shared_bytes(b)) + (seq![
                    rest.take(size as int),
                ] + more) =~= packets@.map_values(|b: Bytes| shared_bytes(b)) + more);
                assert(rest.skip(size as int) =~= b.skip(taken + size));
                lemma_next_multiple(taken, size as int);
                taken = taken + size;
            }
        }
        proof {
            lemma_last_multiple(taken, b.len() as int, size as int);
            let view = packets@.map_values(|b: Bytes| shared_bytes(b));
            assert(view + Seq::<Seq<u8>>::empty() =~= view);
        }
        packets
    }

    /// Reports the figures and counts anew. The frame rate is handed in, in
    /// hundredths.
    pub fn update_stats(&mut self, fps_hundredths: u64)
        requires
            old(self).wf(),
        ensures
            final(self).wf(),
            final(self)@ == reported(old(self)@, fps_hundredths),
    {
        proof {
            reveal(PacketHandler::state);
            reveal(PacketHandler::wf);
        }
        self.stats.update_in_buffer(&self.in_buff);
        self.stats.update_v_buffer(&self.out_buff_v);
        self.stats.update_a_buffer(&self.out_buff_a);
        self.stats.update_cc(&self.cc_errors);
        self.stats.update_bitrate_psi(&mut self.count_psi_packets);
        self.stats.update_bitrate_payload(&mut self.count_payload_packets);
        self.stats.update_bitrate_null(&mut self.count_null_packets);
        self.stats.update_bitrate_adjust_null(&mut self.count_adjust_packets);
        self.stats.update_fps(fps_hundredths);
        self.stats.update_buffer_duration(self.buffer_duration_ms);
        self.stats.update_jitter(self.jitter_ms);
        self.stats.update_adjust_buf(self.adjust_buf);
        self.stats.update_dirty(self.dirty);
    }
}

proof fn lemma_next_multiple(taken: int, size: int)
    requires
        size > 0,
        taken % size == 0,
    ensures
        (taken + size) % size == 0,
{
    vstd::arithmetic::div_mod::lemma_mod_add_multiples_vanish(taken, size);
}

proof fn lemma_last_multiple(taken: int, len: int, size: int)
    requires
        size > 0,
        taken % size == 0,
        taken <= len < taken + size,
    ensures
        (len / size) * size == taken,
{
    vstd::arithmetic::div_mod::lemma_fundamental_div_mod(len, size);
    vstd::arithmetic::div_mod::lemma_fundamental_div_mod(taken, size);
    vstd::arithmetic::mul::lemma_mul_is_commutative(size, taken / size);
    vstd::arithmetic::div_mod::lemma_fundamental_div_mod_converse(
        len,
        size,
        taken / size,
        len - taken,
    );
}

proof fn lemma_unsynced_len(b: Seq<u8>)
    ensures
        !synced(b).0 ==> synced(b).1.len() < 564,
{
    if b.len() >= 564 {
        lemma_first_sync_range(b, b.len() - 563);
    }
}

/// Whether a table is due again.
fn is_table_due(pcr: u64, last: Option<u64>, period_ms: u64) -> (r: bool)
    requires
        period_ms <= 1000,
    ensures
        r == table_due(pcr, last, period_ms as int),
{
    match last {
        Some(at) => pcr_after(pcr, pcr_add(at, period_ms * 27_000)),
        None => true,
    }
}

/// Whether less waits than the share of the buffer that has to.
fn is_below_share(duration: u64, buffer_ms: u64, adjust: u64) -> (r: bool)
    ensures
        r == below_share(duration, buffer_ms, adjust),
{
    if adjust >= 100 {
        return false;
    }
    let here: u128 = duration as u128 * 100;
    let left: u128 = 100 - adjust as u128;
    let full: u128 = buffer_ms as u128;
    assert(full * left <= 0x1_0000_0000_0000_0000 * 100) by (nonlinear_arith)
        requires
            full <= 0x1_0000_0000_0000_0000,
            left <= 100,
    ;
    let share: u128 = full * left;
    if here == share {
        adjust == 18 || (41 <= adjust && adjust <= 43) || (57 <= adjust && adjust <= 59) || (69
            <= adjust && adjust <= 71) || (82 <= adjust && adjust <= 85) || (94 <= adjust && adjust
            <= 99)
    } else {
        here < share
    }
}

/// Every packet and every table that a handler holds is a whole packet.
pub proof fn law_handler_holds_whole_packets(h: &PacketHandler)
    ensures
        whole_packets(h@),
{
    reveal(PacketHandler::state);
    lemma_buffer_whole(&h.out_buff_v);
    lemma_buffer_whole(&h.out_buff_a);
}

/// The bytes of an optional list.
pub open spec fn bytes_of(v: Option<Vec<u8>>) -> Option<Seq<u8>> {
    match v {
        Some(b) => Some(b@),
        None => None,
    }
}

/// The bit rate at which a buffer of this size and duration is sent.
fn bitrate_of(size: u128, duration: u128) -> (r: u64)
    requires
        duration > 0,
        size <= 0x2_0000_0000_0000_0000,
    ensures
        r == measured_bitrate(size as int, duration as int),
{
    let kilobits: u128 = (size * 8) / duration;
    assert(kilobits <= size * 8) by (nonlinear_arith)
        requires
            kilobits == (size * 8) / duration as int,
            duration >= 1,
            size >= 0,
    ;
    let rate: u128 = kilobits * 6144 / 5;
    if rate <= u64::MAX as u128 {
        rate as u64
    } else {
        u64::MAX
    }
}

/// Synchronising adds nothing.
pub proof fn lemma_synced_len(b: Seq<u8>)
    ensures
        synced(b).1.len() <= b.len(),
{
    if b.len() >= 564 {
        lemma_first_aligned_range(b, 0);
        lemma_first_sync_range(b, b.len() - 563);
    }
}

proof fn lemma_first_aligned_range(b: Seq<u8>, i: int)
    requires
        0 <= i,
    ensures
        first_aligned(b, i) matches Some(k) ==> i <= k && k + 564 <= b.len() && aligned(b, k)
            && forall|j: int| i <= j < k ==> !#[trigger] aligned(b, j),
        first_aligned(b, i) is None ==> forall|j: int| i <= j ==> !#[trigger] aligned(b, j),
    decreases b.len() - i,
{
    if i + 564 <= b.len() && !aligned(b, i) {
        lemma_first_aligned_range(b, i + 1);
    }
}

proof fn lemma_first_sync_range(b: Seq<u8>, i: int)
    requires
        0 <= i <= b.len(),
    ensures
        i <= first_sync(b, i) <= b.len(),
    decreases b.len() - i,
{
    if i < b.len() && b[i] != TS_SYNC_BYTE {
        lemma_first_sync_range(b, i + 1);
    }
}

/// Working on a packet changes neither the input nor the configuration.
proof fn lemma_packet_keeps_input(s: MuxState, pkt: Seq<u8>)
    ensures
        with_packet(s, pkt).in_buff == s.in_buff,
        with_packet(s, pkt).output == s.output,
{
    lemma_packet_keeps(s, pkt);
}

proof fn lemma_start_keeps_output(s: MuxState, now: i64)
    ensures
        start_checked(s, now).output == s.output,
{
    reveal(clock_resynced);
    reveal(start_checked);
}

/// A configured name, else the one that was received.
fn choose_name(configured: &str, received: &str) -> (r: String)
    ensures
        r@ == chosen_name(configured@, received@),
{
    let own = trim(configured);
    if own.is_empty() {
        String::from_str(trim(received))
    } else {
        String::from_str(own)
    }
}

/// The configured kind of service, else the one that was received, else that of
/// a television service.
fn choose_type(configured: u32, received: u8) -> (r: u8)
    ensures
        r == chosen_type(configured, received),
{
    if configured != 0 {
        (configured % 256) as u8
    } else if received != 0 {
        received
    } else {
        1
    }
}

/// The first service with an identifier.
fn find_service(services: &Vec<SdtInfo>, id: u16) -> (r: Option<usize>)
    ensures
        r is Some == service_with_id(services_view(services@), id) is Some,
        r matches Some(at) ==> at < services@.len() && service_with_id(services_view(services@), id)
            == Some(services@[at as int]@),
{
    let mut i: usize = 0;
    let ghost all = services_view(services@);
    assert(all.skip(0) =~= all);
    while i < services.len()
        invariant
            i <= services@.len(),
            all == services_view(services@),
            service_with_id(all.skip(i as int), id) == service_with_id(all, id),
        decreases services@.len() - i,
    {
        assert(all.skip(i as int)[0] == services@[i as int]@);
        assert(all.skip(i as int).drop_first() =~= all.skip(i + 1));
        if services[i].service_id == id {
            return Some(i);
        }
        i = i + 1;
    }
    None
}

} // verus!
