//! What a packet handler reports, in the order in which it happened.

use crate::biss::{refusal_words, BissError};
use crate::mux::state::Cmd;
use crate::psi::pat::PatInfo;
use crate::psi::pmt::{PmtInfo, PmtModel};
use crate::psi::sdt::{services_view, SdtInfo, SdtModel};
use crate::text::{decimal, hexadecimal, push_decimal, push_hexadecimal};
use vstd::prelude::*;
use vstd::string::StringExecFns;

verus! {

/// What a packet handler reports. Sizes of buffers are in bytes, durations in
/// milliseconds.
#[derive(Debug)]
pub enum MuxReport {
    /// The key was refused.
    KeyRefused(BissError),
    /// There was no room for the input: so much waited.
    Overflow(usize),
    PatFound(Vec<PatInfo>),
    PatPatched(Vec<PatInfo>),
    PatChanged,
    PatRestored,
    SdtFound(Vec<SdtInfo>),
    SdtPatched(Vec<SdtInfo>),
    /// The services do not list the program.
    SdtMissing(u16),
    /// The description was made from the configuration.
    SdtGenerated,
    PmtFound(PmtInfo),
    PmtPatched(PmtInfo),
    PmtChanged,
    PmtRestored,
    /// A packet was lost.
    WrongCounter { pid: u16, received: u8, expected: u8 },
    /// The decoding time of a stream leapt ahead.
    Leap { pid: u16, ms: u64, video: usize, audio: usize },
    BufferFull { video: usize, audio: usize, max: u64, duration: u64 },
    BufferEmpty { video: usize, audio: usize, min: u64 },
    BuffersCleared { video: usize, audio: usize },
    /// The first packet that waits is to be decoded behind the last one.
    WrongOrder { first: u64, last: u64 },
    /// The buffer is full enough: the bit rate is in kilobits per second.
    Ready { duration: u64, bitrate: u64, size: u64, min: u64 },
    /// A command for the administration.
    Command(Cmd),
}

/// What a packet handler reports.
pub enum MuxNote {
    KeyRefused(BissError),
    Overflow(usize),
    PatFound(Seq<PatInfo>),
    PatPatched(Seq<PatInfo>),
    PatChanged,
    PatRestored,
    SdtFound(Seq<SdtModel>),
    SdtPatched(Seq<SdtModel>),
    SdtMissing(u16),
    SdtGenerated,
    PmtFound(PmtModel),
    PmtPatched(PmtModel),
    PmtChanged,
    PmtRestored,
    WrongCounter { pid: u16, received: u8, expected: u8 },
    Leap { pid: u16, ms: u64, video: usize, audio: usize },
    BufferFull { video: usize, audio: usize, max: u64, duration: u64 },
    BufferEmpty { video: usize, audio: usize, min: u64 },
    BuffersCleared { video: usize, audio: usize },
    WrongOrder { first: u64, last: u64 },
    Ready { duration: u64, bitrate: u64, size: u64, min: u64 },
    Command(Cmd),
}

impl View for MuxReport {
    type V = MuxNote;

    open spec fn view(&self) -> MuxNote {
        match *self {
            MuxReport::KeyRefused(e) => MuxNote::KeyRefused(e),
            MuxReport::Overflow(n) => MuxNote::Overflow(n),
            MuxReport::PatFound(p) => MuxNote::PatFound(p@),
            MuxReport::PatPatched(p) => MuxNote::PatPatched(p@),
            MuxReport::PatChanged => MuxNote::PatChanged,
            MuxReport::PatRestored => MuxNote::PatRestored,
            MuxReport::SdtFound(s) => MuxNote::SdtFound(services_view(s@)),
            MuxReport::SdtPatched(s) => MuxNote::SdtPatched(services_view(s@)),
            MuxReport::SdtMissing(id) => MuxNote::SdtMissing(id),
            MuxReport::SdtGenerated => MuxNote::SdtGenerated,
            MuxReport::PmtFound(p) => MuxNote::PmtFound(p@),
            MuxReport::PmtPatched(p) => MuxNote::PmtPatched(p@),
            MuxReport::PmtChanged => MuxNote::PmtChanged,
            MuxReport::PmtRestored => MuxNote::PmtRestored,
            MuxReport::WrongCounter { pid, received, expected } => MuxNote::WrongCounter {
                pid,
                received,
                expected,
            },
            MuxReport::Leap { pid, ms, video, audio } => MuxNote::Leap { pid, ms, video, audio },
            MuxReport::BufferFull { video, audio, max, duration } => MuxNote::BufferFull {
                video,
                audio,
                max,
                duration,
            },
            MuxReport::BufferEmpty { video, audio, min } => MuxNote::BufferEmpty {
                video,
                audio,
                min,
            },
            MuxReport::BuffersCleared { video, audio } => MuxNote::BuffersCleared { video, audio },
            MuxReport::WrongOrder { first, last } => MuxNote::WrongOrder { first, last },
            MuxReport::Ready { duration, bitrate, size, min } => MuxNote::Ready {
                duration,
                bitrate,
                size,
                min,
            },
            MuxReport::Command(c) => MuxNote::Command(c),
        }
    }
}

/// A size as it is reported.
pub open spec fn shown_size(n: int) -> u64 {
    if n <= u64::MAX {
        n as u64
    } else {
        u64::MAX
    }
}

/// A size as it is reported.
pub fn show_size(n: u128) -> (r: u64)
    ensures
        r == shown_size(n as int),
{
    if n <= u64::MAX as u128 {
        n as u64
    } else {
        u64::MAX
    }
}

/// The reports as they are read.
pub open spec fn notes(v: Seq<MuxReport>) -> Seq<MuxNote> {
    v.map_values(|r: MuxReport| r@)
}

/// Where a report goes.
#[derive(Debug, Clone, Copy, PartialEq, Eq, Structural)]
pub enum ReportLevel {
    /// To the log of the stream alone.
    Line,
    /// To the administration too.
    Info,
    /// To the administration too, as a warning.
    Warn,
    /// To the administration as a command.
    Command(Cmd),
}

/// Where a report goes.
pub open spec fn note_level(n: MuxNote) -> ReportLevel {
    match n {
        MuxNote::Overflow(_)
        | MuxNote::PatChanged
        | MuxNote::PatRestored
        | MuxNote::PmtChanged
        | MuxNote::PmtRestored
        | MuxNote::WrongCounter { .. }
        | MuxNote::Leap { .. }
        | MuxNote::BuffersCleared { .. } => ReportLevel::Warn,
        MuxNote::Ready { .. } => ReportLevel::Info,
        MuxNote::Command(c) => ReportLevel::Command(c),
        _ => ReportLevel::Line,
    }
}

/// The words for the sizes of the two buffers.
pub open spec fn sizes_text(video: usize, audio: usize) -> Seq<char> {
    "v:"@ + decimal(video as int) + ", a:"@ + decimal(audio as int)
}

/// The words of a report. Behind those of a table that was found or patched, what it
/// says is shown.
pub open spec fn note_text(n: MuxNote) -> Seq<char> {
    match n {
        MuxNote::KeyRefused(e) => "BISS init failed: "@ + refusal_words(e),
        MuxNote::Overflow(waiting) => "Input buffer overflow: "@ + decimal(waiting as int)
            + "/52428800"@,
        MuxNote::PatFound(_) => "PAT found: "@,
        MuxNote::PatPatched(_) => "Patched PAT: "@,
        MuxNote::PatChanged => "PAT changed"@,
        MuxNote::PatRestored => "PAT restored"@,
        MuxNote::SdtFound(_) => "SDT found: "@,
        MuxNote::SdtPatched(_) => "SDT patched: "@,
        MuxNote::SdtMissing(id) => "SDT found, but service_id "@ + decimal(id as int)
            + " is not present"@,
        MuxNote::SdtGenerated => "Generated SDT from config"@,
        MuxNote::PmtFound(_) => "PMT found: "@,
        MuxNote::PmtPatched(_) => "Patched PMT: "@,
        MuxNote::PmtChanged => "PMT changed"@,
        MuxNote::PmtRestored => "PMT restored"@,
        MuxNote::WrongCounter { pid, received, expected } => "Wrong cc: pid [0x"@ + hexadecimal(
            pid as int,
        ) + "] received "@ + decimal(received as int) + " but expected "@ + decimal(
            expected as int,
        ),
        MuxNote::Leap { pid, ms, video, audio } => "Discontinuity pid: 0x"@ + hexadecimal(
            pid as int,
        ) + ", dts jump: "@ + decimal(ms as int) + " ms, "@ + sizes_text(video, audio),
        MuxNote::BufferFull { video, audio, max, duration } => "Buffer full: "@ + sizes_text(
            video,
            audio,
        ) + ", max:"@ + decimal(max as int) + ", duration:"@ + decimal(duration as int),
        MuxNote::BufferEmpty { video, audio, min } => "Buffer empty: "@ + sizes_text(video, audio)
            + ", min:"@ + decimal(min as int),
        MuxNote::BuffersCleared { video, audio } => "Buffers clear: v:"@ + decimal(video as int)
            + ",  a:"@ + decimal(audio as int),
        MuxNote::WrongOrder { first, last } => "Wrong DTS, flushing: "@ + decimal(first as int)
            + " - "@ + decimal(last as int),
        MuxNote::Ready { duration, bitrate, size, min } => "Buffer ready: duration "@ + decimal(
            duration as int,
        ) + " ms, bitrate "@ + decimal(bitrate as int) + " kbit/sec, size "@ + decimal(size as int)
            + " bytes, min "@ + decimal(min as int) + " bytes"@,
        MuxNote::Command(_) => Seq::empty(),
    }
}

fn push_sizes(out: &mut String, video: usize, audio: usize)
    ensures
        final(out)@ == old(out)@ + sizes_text(video, audio),
{
    out.append("v:");
    push_decimal(out, video as u64);
    out.append(", a:");
    push_decimal(out, audio as u64);
    assert(out@ =~= old(out)@ + sizes_text(video, audio));
}

impl MuxReport {
    /// Where the report goes.
    pub fn level(&self) -> (r: ReportLevel)
        ensures
            r == note_level(self@),
    {
        match self {
            MuxReport::Overflow(_) => ReportLevel::Warn,
            MuxReport::PatChanged => ReportLevel::Warn,
            MuxReport::PatRestored => ReportLevel::Warn,
            MuxReport::PmtChanged => ReportLevel::Warn,
            MuxReport::PmtRestored => ReportLevel::Warn,
            MuxReport::WrongCounter { .. } => ReportLevel::Warn,
            MuxReport::Leap { .. } => ReportLevel::Warn,
            MuxReport::BuffersCleared { .. } => ReportLevel::Warn,
            MuxReport::Ready { .. } => ReportLevel::Info,
            MuxReport::Command(c) => ReportLevel::Command(*c),
            _ => ReportLevel::Line,
        }
    }

    /// The words of the report. Behind those of a table that was found or patched,
    /// what it says is shown.
    pub fn text(&self) -> (r: String)
        ensures
            r@ == note_text(self@),
    {
        let mut t = String::new();
        match self {
            MuxReport::KeyRefused(e) => {
                t.append("BISS init failed: ");
                t.append(e.message());
            },
            MuxReport::Overflow(waiting) => {
                t.append("Input buffer overflow: ");
                push_decimal(&mut t, *waiting as u64);
                t.append("/52428800");
            },
            MuxReport::PatFound(_) => t.append("PAT found: "),
            MuxReport::PatPatched(_) => t.append("Patched PAT: "),
            MuxReport::PatChanged => t.append("PAT changed"),
            MuxReport::PatRestored => t.append("PAT restored"),
            MuxReport::SdtFound(_) => t.append("SDT found: "),
            MuxReport::SdtPatched(_) => t.append("SDT patched: "),
            MuxReport::SdtMissing(id) => {
                t.append("SDT found, but service_id ");
                push_decimal(&mut t, *id as u64);
                t.append(" is not present");
            },
            MuxReport::SdtGenerated => t.append("Generated SDT from config"),
            MuxReport::PmtFound(_) => t.append("PMT found: "),
            MuxReport::PmtPatched(_) => t.append("Patched PMT: "),
            MuxReport::PmtChanged => t.append("PMT changed"),
            MuxReport::PmtRestored => t.append("PMT restored"),
            MuxReport::WrongCounter { pid, received, expected } => {
                t.append("Wrong cc: pid [0x");
                push_hexadecimal(&mut t, *pid as u64);
                t.append("] received ");
                push_decimal(&mut t, *received as u64);
                t.append(" but expected ");
                push_decimal(&mut t, *expected as u64);
            },
            MuxReport::Leap { pid, ms, video, audio } => {
                t.append("Discontinuity pid: 0x");
                push_hexadecimal(&mut t, *pid as u64);
                t.append(", dts jump: ");
                push_decimal(&mut t, *ms);
                t.append(" ms, ");
                push_sizes(&mut t, *video, *audio);
            },
            MuxReport::BufferFull { video, audio, max, duration } => {
                t.append("Buffer full: ");
                push_sizes(&mut t, *video, *audio);
                t.append(", max:");
                push_decimal(&mut t, *max);
                t.append(", duration:");
                push_decimal(&mut t, *duration);
            },
            MuxReport::BufferEmpty { video, audio, min } => {
                t.append("Buffer empty: ");
                push_sizes(&mut t, *video, *audio);
                t.append(", min:");
                push_decimal(&mut t, *min);
            },
            MuxReport::BuffersCleared { video, audio } => {
                t.append("Buffers clear: v:");
                push_decimal(&mut t, *video as u64);
                t.append(",  a:");
                push_decimal(&mut t, *audio as u64);
            },
            MuxReport::WrongOrder { first, last } => {
                t.append("Wrong DTS, flushing: ");
                push_decimal(&mut t, *first);
                t.append(" - ");
                push_decimal(&mut t, *last);
            },
            MuxReport::Ready { duration, bitrate, size, min } => {
                t.append("Buffer ready: duration ");
                push_decimal(&mut t, *duration);
                t.append(" ms, bitrate ");
                push_decimal(&mut t, *bitrate);
                t.append(" kbit/sec, size ");
                push_decimal(&mut t, *size);
                t.append(" bytes, min ");
                push_decimal(&mut t, *min);
                t.append(" bytes");
            },
            MuxReport::Command(_) => {},
        }
        assert(t@ =~= note_text(self@));
        t
    }
}

} // verus!
