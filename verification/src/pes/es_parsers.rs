//! Finding the headers of elementary streams and reading them.

use crate::pes::es::{Es, Es15, Es2, Es27, Es3, Es4, EsUnknown};
use crate::pes::sps::{find_sps, parse_sps, sps_at, sps_of, unescape, unescaped};
use vstd::prelude::*;

verus! {

/// A parser for the elementary streams of one type.
pub trait EsParser {
    /// What the parser makes of data.
    spec fn parsed(&self, data: Seq<u8>) -> Option<Es>;

    /// Finds the header in the data and reads it.
    fn parse(&self, data: &[u8]) -> (r: Option<Es>)
        ensures
            r == self.parsed(data@),
    ;
}

/// The number of four bytes, the most significant first.
pub open spec fn be32_at(d: Seq<u8>, at: int) -> int {
    d[at] as int * 0x100_0000 + d[at + 1] as int * 0x1_0000 + d[at + 2] as int * 0x100 + d[at
        + 3] as int
}

fn read_u32_be(data: &[u8], offset: usize) -> (r: u32)
    requires
        offset + 4 <= data@.len(),
    ensures
        r == be32_at(data@, offset as int),
{
    data[offset] as u32 * 0x100_0000 + data[offset + 1] as u32 * 0x1_0000 + data[offset + 2] as u32
        * 0x100 + data[offset + 3] as u32
}

/// A parser for streams of an unknown type.
pub struct EsParserUnknown {
    pub stream_type: u8,
}

impl EsParserUnknown {
    pub fn new() -> (r: Self)
        ensures
            r.stream_type == 0,
    {
        EsParserUnknown { stream_type: 0 }
    }
}

impl EsParser for EsParserUnknown {
    open spec fn parsed(&self, data: Seq<u8>) -> Option<Es> {
        Some(Es::Unknown(EsUnknown { stream_type: 0 }))
    }

    fn parse(&self, data: &[u8]) -> (r: Option<Es>) {
        Some(Es::Unknown(EsUnknown::new()))
    }
}

/// The first sequence header from `i` on, with more than four bytes behind its
/// start code.
pub open spec fn sequence_header(d: Seq<u8>, i: int) -> Option<int>
    decreases d.len() - i,
{
    if i + 8 >= d.len() {
        None
    } else if d[i] == 0 && d[i + 1] == 0 && d[i + 2] == 1 && d[i + 3] == 0xB3 {
        Some(i)
    } else {
        sequence_header(d, i + 1)
    }
}

/// What an MPEG-2 sequence header says.
pub open spec fn es2_at(d: Seq<u8>, at: int) -> Es2 {
    let t = be32_at(d, at + 4);
    Es2 {
        stream_type: 2,
        horizontal_size: Some((t / 0x10_0000) as u16),
        vertical_size: Some(((t / 0x100) % 0x1000) as u16),
        aspect_ratio: Some(((t / 0x10) % 0x10) as u8),
        frame_rate: Some((t % 0x10) as u8),
        bitrate: if at + 12 <= d.len() {
            Some((be32_at(d, at + 8) / 0x4000) as u32)
        } else {
            None
        },
    }
}

/// A parser for MPEG-2 video.
pub struct EsParser2 {
    pub stream_type: u8,
}

impl EsParser2 {
    pub fn new() -> (r: Self)
        ensures
            r.stream_type == 2,
    {
        EsParser2 { stream_type: 2 }
    }

    /// Where the first sequence header begins.
    pub fn find_data(&self, data: &[u8]) -> (r: Option<usize>)
        ensures
            r is Some == sequence_header(data@, 0) is Some,
            r matches Some(i) ==> sequence_header(data@, 0) == Some(i as int) && i + 8
                < data@.len(),
    {
        let mut i: usize = 0;
        while i < data.len() && data.len() - i > 8
            invariant
                i <= data@.len(),
                data@.len() == data.len(),
                sequence_header(data@, i as int) == sequence_header(data@, 0),
            decreases data@.len() - i,
        {
            if data[i] == 0x00 && data[i + 1] == 0x00 && data[i + 2] == 0x01 && data[i + 3]
                == 0xB3 {
                return Some(i);
            }
            i = i + 1;
        }
        None
    }
}

impl EsParser for EsParser2 {
    open spec fn parsed(&self, data: Seq<u8>) -> Option<Es> {
        match sequence_header(data, 0) {
            Some(at) => Some(Es::Es2(es2_at(data, at))),
            None => None,
        }
    }

    fn parse(&self, data: &[u8]) -> (r: Option<Es>) {
        let at: usize = match self.find_data(data) {
            Some(at) => at,
            None => return None,
        };
        assert(data@.len() == data.len());
        let mut es = Es2::new();
        let t = read_u32_be(data, at + 4);
        es.horizontal_size = Some((t / 0x10_0000) as u16);
        es.vertical_size = Some(((t / 0x100) % 0x1000) as u16);
        es.aspect_ratio = Some(((t / 0x10) % 0x10) as u8);
        es.frame_rate = Some((t % 0x10) as u8);
        if data.len() - at >= 12 {
            es.bitrate = Some(read_u32_be(data, at + 8) / 0x4000);
        }
        Some(Es::Es2(es))
    }
}

/// The first place from `i` on that holds all ones.
pub open spec fn first_ones(d: Seq<u8>, i: int) -> Option<int>
    decreases d.len() - i,
{
    if i >= d.len() {
        None
    } else if d[i] == 0xFF {
        Some(i)
    } else {
        first_ones(d, i + 1)
    }
}

/// The first audio header from `i` on: four bytes that begin with twelve ones.
/// After a byte of all ones that begins none, the byte behind it is passed over
/// too.
pub open spec fn audio_header(d: Seq<u8>, i: int) -> Option<u32>
    decreases d.len() - i,
{
    match first_ones(d, i) {
        Some(at) => if at < i || at + 4 > d.len() {
            None
        } else if be32_at(d, at) / 0x10_0000 == 0xFFF {
            Some(be32_at(d, at) as u32)
        } else {
            audio_header(d, at + 2)
        },
        None => None,
    }
}

fn find_byte(data: &[u8], start: usize) -> (r: Option<usize>)
    requires
        start <= data@.len() + 1,
    ensures
        r is Some == first_ones(data@, start as int) is Some,
        r matches Some(i) ==> first_ones(data@, start as int) == Some(i as int) && start <= i
            < data@.len(),
{
    let mut i: usize = start;
    while i < data.len()
        invariant
            start <= i,
            i <= data@.len() || i == start,
            first_ones(data@, i as int) == first_ones(data@, start as int),
        decreases data@.len() - i,
    {
        if data[i] == 0xFF {
            return Some(i);
        }
        i = i + 1;
    }
    None
}

/// The first audio header in the data.
pub fn find_mpeg_audio_header(data: &[u8]) -> (r: Option<u32>)
    ensures
        r == audio_header(data@, 0),
{
    let mut pointer: usize = 0;
    while pointer < data.len()
        invariant
            pointer <= data@.len() + 1,
            data@.len() == data.len(),
            audio_header(data@, pointer as int) == audio_header(data@, 0),
        decreases data@.len() + 1 - pointer,
    {
        let pos: usize = match find_byte(data, pointer) {
            Some(pos) => pos,
            None => return None,
        };
        if data.len() - pos < 4 {
            return None;
        }
        let header = read_u32_be(data, pos);
        if header / 0x10_0000 == 0xFFF {
            return Some(header);
        }
        pointer = pos + 2;
    }
    None
}

/// What an MPEG audio header says.
pub open spec fn es3_of(h: u32) -> Es3 {
    Es3 {
        stream_type: 3,
        id: Some(((h / 0x8_0000) % 2) as u8),
        layer: Some(((h / 0x2_0000) % 4) as u8),
        bit_rate_index: Some(((h / 0x1000) % 16) as u8),
        sampling_frequency: Some(((h / 0x400) % 4) as u8),
        mode: Some(((h / 0x40) % 4) as u8),
        mode_extension: Some(((h / 0x10) % 4) as u8),
        copyright: Some(((h / 8) % 2) as u8),
        original: Some(((h / 4) % 2) as u8),
        emphasis: Some((h % 4) as u8),
    }
}

/// What an MPEG audio header says of a stream with half sampling frequencies.
pub open spec fn es4_of(h: u32) -> Es4 {
    Es4 {
        stream_type: 4,
        id: Some(((h / 0x8_0000) % 2) as u8),
        layer: Some(((h / 0x2_0000) % 4) as u8),
        bit_rate_index: Some(((h / 0x1000) % 16) as u8),
        sampling_frequency: Some(((h / 0x400) % 4) as u8),
        mode: Some(((h / 0x40) % 4) as u8),
        mode_extension: Some(((h / 0x10) % 4) as u8),
        copyright: Some(((h / 8) % 2) as u8),
        original: Some(((h / 4) % 2) as u8),
        emphasis: Some((h % 4) as u8),
    }
}

/// What an AAC header says.
pub open spec fn es15_of(h: u32) -> Es15 {
    Es15 {
        stream_type: 15,
        id: Some(((h / 0x8_0000) % 2) as u8),
        profile: Some(((h / 0x1_0000) % 4) as u8),
        sampling_frequency: Some(((h / 0x1000) % 16) as u8),
        channel_configuration: Some(((h / 0x200) % 8) as u8),
        copyright: Some(((h / 0x100) % 2) as u8),
        original: Some(((h / 0x80) % 2) as u8),
    }
}

/// A parser for MPEG audio.
pub struct EsParser3 {
    pub stream_type: u8,
}

impl EsParser3 {
    pub fn new() -> (r: Self)
        ensures
            r.stream_type == 3,
    {
        EsParser3 { stream_type: 3 }
    }
}

impl EsParser for EsParser3 {
    open spec fn parsed(&self, data: Seq<u8>) -> Option<Es> {
        match audio_header(data, 0) {
            Some(h) => Some(Es::Es3(es3_of(h))),
            None => None,
        }
    }

    fn parse(&self, data: &[u8]) -> (r: Option<Es>) {
        let h: u32 = match find_mpeg_audio_header(data) {
            Some(h) => h,
            None => return None,
        };
        let mut es = Es3::new();
        es.id = Some(((h / 0x8_0000) % 2) as u8);
        es.layer = Some(((h / 0x2_0000) % 4) as u8);
        es.bit_rate_index = Some(((h / 0x1000) % 16) as u8);
        es.sampling_frequency = Some(((h / 0x400) % 4) as u8);
        es.mode = Some(((h / 0x40) % 4) as u8);
        es.mode_extension = Some(((h / 0x10) % 4) as u8);
        es.copyright = Some(((h / 8) % 2) as u8);
        es.original = Some(((h / 4) % 2) as u8);
        es.emphasis = Some((h % 4) as u8);
        Some(Es::Es3(es))
    }
}

/// A parser for MPEG audio with half sampling frequencies.
pub struct EsParser4 {
    pub stream_type: u8,
}

impl EsParser4 {
    pub fn new() -> (r: Self)
        ensures
            r.stream_type == 4,
    {
        EsParser4 { stream_type: 4 }
    }
}

impl EsParser for EsParser4 {
    open spec fn parsed(&self, data: Seq<u8>) -> Option<Es> {
        match audio_header(data, 0) {
            Some(h) => Some(Es::Es4(es4_of(h))),
            None => None,
        }
    }

    fn parse(&self, data: &[u8]) -> (r: Option<Es>) {
        let h: u32 = match find_mpeg_audio_header(data) {
            Some(h) => h,
            None => return None,
        };
        let mut es = Es4::new();
        es.id = Some(((h / 0x8_0000) % 2) as u8);
        es.layer = Some(((h / 0x2_0000) % 4) as u8);
        es.bit_rate_index = Some(((h / 0x1000) % 16) as u8);
        es.sampling_frequency = Some(((h / 0x400) % 4) as u8);
        es.mode = Some(((h / 0x40) % 4) as u8);
        es.mode_extension = Some(((h / 0x10) % 4) as u8);
        es.copyright = Some(((h / 8) % 2) as u8);
        es.original = Some(((h / 4) % 2) as u8);
        es.emphasis = Some((h % 4) as u8);
        Some(Es::Es4(es))
    }
}

/// A parser for AAC audio.
pub struct EsParser15 {
    pub stream_type: u8,
}

impl EsParser15 {
    pub fn new() -> (r: Self)
        ensures
            r.stream_type == 15,
    {
        EsParser15 { stream_type: 15 }
    }
}

impl EsParser for EsParser15 {
    open spec fn parsed(&self, data: Seq<u8>) -> Option<Es> {
        match audio_header(data, 0) {
            Some(h) => Some(Es::Es15(es15_of(h))),
            None => None,
        }
    }

    fn parse(&self, data: &[u8]) -> (r: Option<Es>) {
        let h: u32 = match find_mpeg_audio_header(data) {
            Some(h) => h,
            None => return None,
        };
        let mut es = Es15::new();
        es.id = Some(((h / 0x8_0000) % 2) as u8);
        es.profile = Some(((h / 0x1_0000) % 4) as u8);
        es.sampling_frequency = Some(((h / 0x1000) % 16) as u8);
        es.channel_configuration = Some(((h / 0x200) % 8) as u8);
        es.copyright = Some(((h / 0x100) % 2) as u8);
        es.original = Some(((h / 0x80) % 2) as u8);
        Some(Es::Es15(es))
    }
}

/// A parser for H.264 video.
pub struct EsParser27 {
    pub stream_type: u8,
}

impl EsParser27 {
    pub fn new() -> (r: Self)
        ensures
            r.stream_type == 27,
    {
        EsParser27 { stream_type: 27 }
    }
}

impl EsParser for EsParser27 {
    open spec fn parsed(&self, data: Seq<u8>) -> Option<Es> {
        match sps_at(data, 0) {
            Some(unit) => match sps_of(unescaped(unit, 0)) {
                Some(es) => Some(Es::Es27(es)),
                None => None,
            },
            None => None,
        }
    }

    fn parse(&self, data: &[u8]) -> (r: Option<Es>) {
        let unit = match find_sps(data) {
            Some(unit) => unit,
            None => return None,
        };
        let rbsp = unescape(unit.as_slice());
        match parse_sps(rbsp.as_slice()) {
            Some(es) => Some(Es::Es27(es)),
            None => None,
        }
    }
}

/// What the parser for a type of stream makes of data.
pub open spec fn parsed_es(stream_type: u8, data: Seq<u8>) -> Option<Es> {
    if stream_type == 2 {
        (EsParser2 { stream_type: 2 }).parsed(data)
    } else if stream_type == 3 {
        (EsParser3 { stream_type: 3 }).parsed(data)
    } else if stream_type == 4 {
        (EsParser4 { stream_type: 4 }).parsed(data)
    } else if stream_type == 15 {
        (EsParser15 { stream_type: 15 }).parsed(data)
    } else if stream_type == 27 {
        (EsParser27 { stream_type: 27 }).parsed(data)
    } else {
        (EsParserUnknown { stream_type: 0 }).parsed(data)
    }
}

/// Parses data with the parser for a type of stream.
pub fn parse_es(stream_type: u8, data: &[u8]) -> (r: Option<Es>)
    ensures
        r == parsed_es(stream_type, data@),
{
    match stream_type {
        2 => EsParser2::new().parse(data),
        3 => EsParser3::new().parse(data),
        4 => EsParser4::new().parse(data),
        15 => EsParser15::new().parse(data),
        27 => EsParser27::new().parse(data),
        _ => EsParserUnknown::new().parse(data),
    }
}

} // verus!
