//! What holds of the start: what a handler begins with, when sending starts and at what
//! rate, and when it stops because too little or too much waits.

use crate::biss::{Biss1Descrambler, BissError};
use crate::config::{Output, Program};
use crate::mux::laws::law_start_needs_buffer;
use crate::mux::out_buffer::{duration_of, first_unit, last_unit, unit_count, PacketModel};
use crate::mux::output_laws::{law_duration_is_decoding_time, set_for};
use crate::mux::reports::MuxNote;
use crate::mux::state::{
    clock_of, clock_resynced, frame_rate_of, initial_state, measured_bitrate, program_counts,
    ready_note, size_checked, start_checked, waiting_size, work_to_do, zero_counts, MuxState,
};
use crate::status::StatsModel;
use vstd::prelude::*;

verus! {

/// The bytes of the packets that wait.
pub open spec fn bytes_waiting(s: MuxState) -> int {
    (s.video.len() + s.audio.len()) as int * 188
}

/// The decoding time from the first packet of video that waits to the last one, on a clock
/// of 33 bits.
pub open spec fn video_span(s: MuxState) -> int {
    (s.video[s.video.len() - 1].dts - s.video[0].dts) % 0x2_0000_0000
}

/// Once the association table and the map are there, sending starts when the video that
/// waits spans the configured time, and not before. Where the last packet of video is to be
/// decoded before the first one, all that waits is thrown away. Until then all that waits
/// goes on waiting.
pub proof fn law_start_when_enough_waits(s: MuxState, now: i64)
    requires
        s.buffer_ms > 0,
    ensures
        ({
            let t = start_checked(s, now);
            let span = video_span(s);
            let asked = !s.is_ready && s.pat_ready && s.pmt_ready;
            let enough = s.video.len() > 0 && span < 0x1_0000_0000 && span / 90 >= s.buffer_ms;
            let wrong = s.video.len() > 0 && span > 0x1_0000_0000;
            &&& t.is_ready == (s.is_ready || asked && enough)
            &&& asked ==> t.sdt_ready
            &&& asked && wrong ==> t.video.len() == 0 && t.audio.len() == 0
            &&& !(asked && wrong) ==> t.video == s.video && t.audio == s.audio
            &&& !asked ==> t == s
        }),
{
    reveal(start_checked);
    reveal(clock_resynced);
    law_duration_is_decoding_time(s.video);
    if s.video.len() > 0 {
        let first = s.video[0].dts;
        let last = s.video[s.video.len() - 1].dts;
        assert(((first - last) % 0x2_0000_0000 + (last - first) % 0x2_0000_0000) % 0x2_0000_0000
            == 0);
    }
}

proof fn lemma_quotient(x: int, d: int)
    requires
        d > 0,
        x >= 0,
    ensures
        (x / d) * d <= x < (x / d + 1) * d,
        x / d >= 0,
        x / d <= x,
{
    vstd::arithmetic::div_mod::lemma_fundamental_div_mod(x, d);
    vstd::arithmetic::div_mod::lemma_mod_bound(x, d);
    assert((x / d) * d <= x < (x / d + 1) * d) by (nonlinear_arith)
        requires
            x == d * (x / d) + x % d,
            0 <= x % d < d,
    ;
    vstd::arithmetic::div_mod::lemma_div_pos_is_pos(x, d);
    assert(x / d <= x) by (nonlinear_arith)
        requires
            (x / d) * d <= x,
            d >= 1,
            x / d >= 0,
    ;
}

/// The rate is 1.2 times that of what waits, in units of 1024 bits a second, to the bit: a
/// buffer of `size` bytes that lasts `ms` milliseconds holds `size * 8 / ms` thousand bits a
/// second.
pub proof fn law_measured_rate(size: int, ms: int, thousands: int)
    requires
        ms > 0,
        size >= 0,
        thousands * ms <= size * 8 < (thousands + 1) * ms,
        thousands * 6144 <= u64::MAX,
    ensures
        ({
            let rate = measured_bitrate(size, ms) as int;
            5 * rate <= thousands * 1024 * 6 < 5 * (rate + 1)
        }),
{
    lemma_quotient(size * 8, ms);
    let q = size * 8 / ms;
    assert(q == thousands) by (nonlinear_arith)
        requires
            q * ms <= size * 8 < (q + 1) * ms,
            thousands * ms <= size * 8 < (thousands + 1) * ms,
            ms > 0,
    ;
}

/// What holds once sending has started: the clock shows 300 ms less than the decoding time
/// of the first packet of video; the configured rate is kept, and where none is configured
/// it is measured; the buffer may shrink to half of what a second of it takes, and grow to
/// twice what the configured time of it takes.
pub proof fn law_start_sets_limits(s: MuxState, now: i64)
    requires
        s.buffer_ms > 0,
        !s.is_ready,
        start_checked(s, now).is_ready,
        s.video.len() * 188 <= usize::MAX,
        s.audio.len() * 188 <= usize::MAX,
    ensures
        ({
            let t = start_checked(s, now);
            let ms = video_span(s) / 90;
            let size = bytes_waiting(s);
            &&& ms > 0
            &&& 2 * t.min_size * ms <= size * 1000 < 2 * (t.min_size + 1) * ms
            &&& t.max_size * ms <= size * s.buffer_ms * 2 < (t.max_size + 1) * ms
            &&& s.restamper is Some ==> t.restamper is Some && clock_of(t) == Some(
                set_for(s.video[0].dts) as u64,
            ) && t.restamper->0.target_bitrate_bps == (if s.restamper->0.target_bitrate_bps == 0 {
                measured_bitrate(size, ms)
            } else {
                s.restamper->0.target_bitrate_bps
            })
            &&& t.fps == frame_rate_of(s.video)
            &&& t.stats.last_ready_timestamp == now
            &&& t.cc_errors == Map::<u16, usize>::empty()
            &&& t.buffer_ms == s.buffer_ms && t.in_buff == s.in_buff
        }),
{
    law_start_needs_buffer(s, now);
    law_start_when_enough_waits(s, now);
    law_duration_is_decoding_time(s.video);
    reveal(start_checked);
    reveal(clock_resynced);
    let ms = video_span(s) / 90;
    let size = bytes_waiting(s);
    assert(waiting_size(s) == size);
    lemma_quotient(size * 1000, ms);
    let low = size * 1000 / ms;
    let min = low / 2;
    assert(size * s.buffer_ms * 2 >= 0) by (nonlinear_arith)
        requires
            size >= 0,
            s.buffer_ms > 0,
    ;
    lemma_quotient(size * s.buffer_ms * 2, ms);
    let max = size * s.buffer_ms * 2 / ms;
    assert(2 * min * ms <= size * 1000 < 2 * (min + 1) * ms) by (nonlinear_arith)
        requires
            low * ms <= size * 1000 < (low + 1) * ms,
            2 * min <= low < 2 * min + 2,
            ms > 0,
    ;
    assert(max <= 2 * size) by (nonlinear_arith)
        requires
            max * ms <= size * s.buffer_ms * 2,
            0 < s.buffer_ms <= ms,
            size >= 0,
    ;
    let t = start_checked(s, now);
    assert(t.min_size == min);
    assert(t.max_size == max);
}

/// The frame rate is measured from the first unit that starts in the video that waits to
/// the last one: the time between them, and how many units less one.
pub proof fn law_frame_rate(v: Seq<PacketModel>, i: int, j: int)
    requires
        0 <= i < j < v.len(),
        v[i].pusi && v[j].pusi,
        forall|k: int| 0 <= k < i ==> !(#[trigger] v[k]).pusi,
        forall|k: int| j < k < v.len() ==> !(#[trigger] v[k]).pusi,
        (v[j].dts - v[i].dts) % 0x2_0000_0000 > 0,
        unit_count(v) <= u64::MAX,
    ensures
        frame_rate_of(v) matches Some(r) && r.ticks == (v[j].dts - v[i].dts) % 0x2_0000_0000
            && r.intervals + 1 == unit_count(v),
{
    lemma_first_unit(v, 0, i);
    lemma_last_unit(v, v.len() - 1, j);
    lemma_two_units(v, i, j);
}

proof fn lemma_first_unit(v: Seq<PacketModel>, k: int, i: int)
    requires
        0 <= k <= i < v.len(),
        v[i].pusi,
        forall|m: int| k <= m < i ==> !(#[trigger] v[m]).pusi,
    ensures
        first_unit(v, k) == Some(i),
    decreases i - k,
{
    if k < i {
        lemma_first_unit(v, k + 1, i);
    }
}

proof fn lemma_last_unit(v: Seq<PacketModel>, k: int, j: int)
    requires
        0 <= j <= k < v.len(),
        v[j].pusi,
        forall|m: int| j < m <= k ==> !(#[trigger] v[m]).pusi,
    ensures
        last_unit(v, k) == Some(j),
    decreases k - j,
{
    if k > j {
        lemma_last_unit(v, k - 1, j);
    }
}

proof fn lemma_one_unit(v: Seq<PacketModel>, i: int)
    requires
        0 <= i < v.len(),
        v[i].pusi,
    ensures
        unit_count(v) >= 1,
    decreases v.len(),
{
    if i < v.len() - 1 {
        lemma_one_unit(v.drop_last(), i);
    }
}

proof fn lemma_two_units(v: Seq<PacketModel>, i: int, j: int)
    requires
        0 <= i < j < v.len(),
        v[i].pusi && v[j].pusi,
    ensures
        unit_count(v) >= 2,
    decreases v.len(),
{
    if j < v.len() - 1 {
        lemma_two_units(v.drop_last(), i, j);
    } else {
        lemma_one_unit(v.drop_last(), i);
    }
}

// ---- Too little and too much ----

/// While sending, all that waits is thrown away where it has shrunk below the lower limit,
/// has grown above the upper one, or lasts more than twice the configured time; sending
/// then stops, and the times of the streams are forgotten. Else nothing changes.
pub proof fn law_size_is_kept_in_limits(s: MuxState)
    requires
        s.video.len() * 188 <= usize::MAX,
        s.audio.len() * 188 <= usize::MAX,
    ensures
        ({
            let t = size_checked(s);
            let span = video_span(s);
            let long = s.video.len() > 0 && span < 0x1_0000_0000 && span / 90 > 2 * s.buffer_ms;
            let out = s.check_size && s.is_ready && (bytes_waiting(s) < s.min_size || bytes_waiting(
                s,
            ) > s.max_size || long);
            &&& out ==> !t.is_ready && t.video.len() == 0 && t.audio.len() == 0 && t.min_size == 0
                && t.max_size == 0 && t.last_times == Map::<u16, (u64, u64)>::empty()
            &&& !out ==> t == s
            &&& t.output == s.output && t.in_buff == s.in_buff && t.restamper == s.restamper
                && t.pat_ready == s.pat_ready && t.pmt_ready == s.pmt_ready && t.sdt_ready
                == s.sdt_ready && t.dirty == s.dirty
        }),
{
    reveal(size_checked);
    law_duration_is_decoding_time(s.video);
    assert(waiting_size(s) == bytes_waiting(s));
}

/// While enough video waits no input is worked on; what is enough is the configured time.
pub proof fn law_enough_video_holds_input(s: MuxState)
    requires
        s.is_ready,
        s.video.len() > 0,
        video_span(s) < 0x1_0000_0000,
        video_span(s) / 90 >= s.buffer_ms,
    ensures
        !work_to_do(s),
{
    law_duration_is_decoding_time(s.video);
}

// ---- What a handler begins with ----

/// A handler begins with nothing received, nothing to send, and the settings of the last
/// program: 5 s of buffer where none is configured, and a jitter between 30 ms and 3 s. The
/// clock runs at the configured rate. No loss is counted yet for any stream of a program.
pub proof fn law_handler_begins_empty(
    output: Output,
    biss: Option<Biss1Descrambler>,
    refused: Option<BissError>,
    stats: StatsModel,
)
    requires
        output.programs@.len() > 0,
    ensures
        ({
            let s = initial_state(output, biss, refused, stats);
            let p = output.programs@[output.programs@.len() - 1];
            &&& !s.is_ready && !s.is_sync && !s.dirty && !s.pat_ready && !s.pmt_ready
                && !s.sdt_ready
            &&& s.video.len() == 0 && s.audio.len() == 0 && s.in_buff.len() == 0 && s.frame.len()
                == 0
            &&& s.buffer_ms == if p.buffer_duration == 0 {
                5000
            } else {
                p.buffer_duration as int
            }
            &&& 30 <= s.jitter_ms <= 3000
            &&& 30 <= p.jitter <= 3000 ==> s.jitter_ms == p.jitter
            &&& p.jitter < 30 ==> s.jitter_ms == 30
            &&& p.jitter > 3000 ==> s.jitter_ms == 3000
            &&& s.adjust_buf == p.adjust_buf
            &&& s.restamper is Some == !output.proxy
            &&& s.restamper matches Some(r) ==> r.target_bitrate_bps == output.cbr
                && r.first_pcr_value is None && r.total_packets_sent == 0
            &&& s.output == output && s.biss == biss
            &&& forall|k: int, pid: u16|
                0 <= k < output.programs@.len() && (output.programs@[k].video_pids@.contains(pid)
                    || output.programs@[k].audio_pids@.contains(pid))
                    ==> #[trigger] is_counted_for(output.programs@[k], pid, s)
        }),
{
    let s = initial_state(output, biss, refused, stats);
    assert forall|k: int, pid: u16|
        0 <= k < output.programs@.len() && (output.programs@[k].video_pids@.contains(pid)
            || output.programs@[k].audio_pids@.contains(pid)) implies #[trigger] is_counted_for(
        output.programs@[k],
        pid,
        s,
    ) by {
        lemma_counted_for(output.programs@, k, pid);
    }
}

/// Whether losses of a stream of a program are counted, from none.
pub open spec fn is_counted_for(p: Program, pid: u16, s: MuxState) -> bool {
    &&& s.cc_errors.contains_key(pid) && s.cc_errors[pid] == 0
    &&& s.stats.cc.contains_key(pid) && s.stats.cc[pid] == 0
}

proof fn lemma_counted_for(programs: Seq<Program>, k: int, pid: u16)
    requires
        0 <= k < programs.len(),
        programs[k].video_pids@.contains(pid) || programs[k].audio_pids@.contains(pid),
    ensures
        program_counts(programs).contains_key(pid),
        program_counts(programs)[pid] == 0,
    decreases programs.len(),
{
    lemma_counts_are_zero(programs.drop_last());
    if k < programs.len() - 1 {
        lemma_counted_for(programs.drop_last(), k, pid);
    }
}

proof fn lemma_counts_are_zero(programs: Seq<Program>)
    ensures
        forall|pid: u16| #[trigger]
            program_counts(programs).contains_key(pid) ==> program_counts(programs)[pid] == 0,
    decreases programs.len(),
{
    if programs.len() > 0 {
        lemma_counts_are_zero(programs.drop_last());
        let last = programs.last();
        let before = program_counts(programs.drop_last());
        let audio = zero_counts(last.audio_pids@);
        let video = zero_counts(last.video_pids@);
        assert forall|pid: u16| #[trigger]
            program_counts(programs).contains_key(pid) implies program_counts(programs)[pid]
            == 0 by {
            if !video.contains_key(pid) && !audio.contains_key(pid) {
                assert(before.contains_key(pid));
            }
        }
    }
}

// ---- What is reported ----

/// Whether a number is reported as it is, or as the largest one where it is larger.
pub open spec fn is_shown(n: u64, value: int) -> bool {
    if value <= u64::MAX {
        n == value
    } else {
        n == u64::MAX
    }
}

/// The start is reported last: with the time that waits, its size, its rate in thousand bits
/// a second, and half of what a second of it takes.
pub proof fn law_start_is_reported(s: MuxState, now: i64)
    requires
        s.buffer_ms > 0,
        !s.is_ready,
        start_checked(s, now).is_ready,
        s.video.len() * 188 <= usize::MAX,
        s.audio.len() * 188 <= usize::MAX,
    ensures
        ({
            let t = start_checked(s, now);
            let ms = video_span(s) / 90;
            let size = bytes_waiting(s);
            &&& t.reports.len() > s.reports.len()
            &&& s.reports.is_prefix_of(t.reports)
            &&& t.reports.last() matches MuxNote::Ready { duration, bitrate, size: bytes, min } && {
                &&& duration == ms
                &&& is_shown(bytes, size)
                &&& is_shown(bitrate, size * 8 / ms)
                &&& is_shown(min, t.min_size as int)
            }
        }),
{
    law_start_needs_buffer(s, now);
    law_start_when_enough_waits(s, now);
    law_start_sets_limits(s, now);
    law_duration_is_decoding_time(s.video);
    reveal(start_checked);
    reveal(clock_resynced);
    reveal(ready_note);
    assert(waiting_size(s) == bytes_waiting(s));
    let ms = video_span(s) / 90;
    lemma_quotient(bytes_waiting(s) * 1000, ms);
}

/// That too little or too much waits is reported with what waits of video and of audio, and
/// after it that all of it was thrown away.
pub proof fn law_limit_is_reported(s: MuxState)
    requires
        s.video.len() * 188 <= usize::MAX,
        s.audio.len() * 188 <= usize::MAX,
        s.check_size && s.is_ready,
        size_checked(s) != s,
    ensures
        ({
            let t = size_checked(s);
            let n = s.reports.len() as int;
            let video = (s.video.len() * 188) as usize;
            let audio = (s.audio.len() * 188) as usize;
            &&& t.reports.len() == n + 2
            &&& s.reports.is_prefix_of(t.reports)
            &&& t.reports[n + 1] == (MuxNote::BuffersCleared { video, audio })
            &&& bytes_waiting(s) < s.min_size ==> (t.reports[n] matches MuxNote::BufferEmpty {
                video: v,
                audio: a,
                min,
            } && v == video && a == audio && is_shown(min, s.min_size as int))
            &&& bytes_waiting(s) >= s.min_size ==> (t.reports[n] matches MuxNote::BufferFull {
                video: v,
                audio: a,
                max,
                duration,
            } && v == video && a == audio && is_shown(max, s.max_size as int) && duration
                == duration_of(s.video))
        }),
{
    reveal(size_checked);
    assert(waiting_size(s) == bytes_waiting(s));
}

/// Input is worked on where it is enough: a whole packet once it is in step, three before,
/// unless enough video waits while sending.
pub proof fn law_enough_input_is_worked_on(s: MuxState)
    requires
        !s.is_ready || s.video.len() == 0 || video_span(s) >= 0x1_0000_0000 || video_span(s) / 90
            < s.buffer_ms,
        s.buffer_ms > 0,
    ensures
        s.is_sync ==> work_to_do(s) == (s.in_buff.len() >= 188),
        !s.is_sync ==> work_to_do(s) == (s.in_buff.len() >= 3 * 188),
{
    law_duration_is_decoding_time(s.video);
}

} // verus!
