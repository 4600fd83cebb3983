//! What an elementary stream says about itself, and how that is put into words.

use crate::text::{decimal, push_decimal};
use vstd::prelude::*;
use vstd::string::StringExecFns;

verus! {

/// What is known of an elementary stream, by the type of the stream.
#[derive(Debug, Clone, Copy, PartialEq, Eq)]
pub enum Es {
    Unknown(EsUnknown),
    Es2(Es2),
    Es3(Es3),
    Es4(Es4),
    Es15(Es15),
    Es27(Es27),
}

/// The words for an elementary stream.
pub open spec fn description_of(es: Es) -> Seq<char> {
    match es {
        Es::Unknown(e) => unknown_text(e),
        Es::Es2(e) => es2_text(e),
        Es::Es3(e) => es3_text(e),
        Es::Es4(e) => es4_text(e),
        Es::Es15(e) => es15_text(e),
        Es::Es27(e) => es27_text(e),
    }
}

impl Es {
    /// The words for the elementary stream.
    pub fn description(&self) -> (r: String)
        ensures
            r@ == description_of(*self),
    {
        match self {
            Es::Unknown(e) => e.description(),
            Es::Es2(e) => e.description(),
            Es::Es3(e) => e.description(),
            Es::Es4(e) => e.description(),
            Es::Es15(e) => e.description(),
            Es::Es27(e) => e.description(),
        }
    }
}

/// An elementary stream of an unknown type.
#[derive(Debug, Clone, Copy, PartialEq, Eq, Structural)]
pub struct EsUnknown {
    pub stream_type: u8,
}

pub open spec fn unknown_text(e: EsUnknown) -> Seq<char> {
    "Unknown: "@ + decimal(e.stream_type as int)
}

impl EsUnknown {
    pub fn new() -> (r: Self)
        ensures
            r.stream_type == 0,
    {
        EsUnknown { stream_type: 0 }
    }

    pub fn description(&self) -> (r: String)
        ensures
            r@ == unknown_text(*self),
    {
        let mut out = String::from_str("Unknown: ");
        push_decimal(&mut out, self.stream_type as u64);
        out
    }
}

/// An MPEG-2 video stream.
#[derive(Debug, Clone, Copy, PartialEq, Eq, Structural)]
pub struct Es2 {
    pub stream_type: u8,
    pub horizontal_size: Option<u16>,
    pub vertical_size: Option<u16>,
    pub aspect_ratio: Option<u8>,
    pub frame_rate: Option<u8>,
    pub bitrate: Option<u32>,
}

/// A number that may be missing, 0 then.
pub open spec fn or_zero16(v: Option<u16>) -> int {
    match v {
        Some(n) => n as int,
        None => 0,
    }
}

/// A number that may be missing, 0 then.
pub open spec fn or_zero32(v: Option<u32>) -> int {
    match v {
        Some(n) => n as int,
        None => 0,
    }
}

/// A bit rate in units of 400 bit/s, rounded up to whole kbit/s.
pub open spec fn bitrate_text(v: Option<u32>) -> Seq<char> {
    match v {
        Some(0x3FFFF) => "VBR"@,
        Some(b) => decimal((b as int * 400 + 999) / 1000) + " kbit/s"@,
        None => "-"@,
    }
}

pub open spec fn es2_text(e: Es2) -> Seq<char> {
    "Video: mpeg2video "@ + decimal(or_zero16(e.horizontal_size)) + "x"@ + decimal(
        or_zero16(e.vertical_size),
    ) + ", "@ + aspect_text(e.aspect_ratio) + ", "@ + frame_rate_text(e.frame_rate) + " fps, "@
        + bitrate_text(e.bitrate)
}

/// The words for an aspect ratio.
pub open spec fn aspect_text(v: Option<u8>) -> Seq<char> {
    match v {
        Some(0b0010) => "4:3"@,
        Some(0b0011) => "16:9"@,
        Some(0b0100) => "2.21:1"@,
        _ => "None"@,
    }
}

fn aspect_ratio_str(v: Option<u8>) -> (r: &'static str)
    ensures
        r@ == aspect_text(v),
{
    match v {
        Some(0b0010) => "4:3",
        Some(0b0011) => "16:9",
        Some(0b0100) => "2.21:1",
        _ => "None",
    }
}

/// The words for a frame rate.
pub open spec fn frame_rate_text(v: Option<u8>) -> Seq<char> {
    match v {
        Some(0b0011) => "25"@,
        Some(0b0110) => "50"@,
        Some(0b0001) => "24000/1001"@,
        Some(0b0010) => "24"@,
        Some(0b0100) => "30000/1001"@,
        Some(0b0101) => "30"@,
        Some(0b0111) => "60000/1001"@,
        Some(0b1000) => "60"@,
        _ => "None"@,
    }
}

fn frame_rate_str(v: Option<u8>) -> (r: &'static str)
    ensures
        r@ == frame_rate_text(v),
{
    match v {
        Some(0b0011) => "25",
        Some(0b0110) => "50",
        Some(0b0001) => "24000/1001",
        Some(0b0010) => "24",
        Some(0b0100) => "30000/1001",
        Some(0b0101) => "30",
        Some(0b0111) => "60000/1001",
        Some(0b1000) => "60",
        _ => "None",
    }
}

impl Es2 {
    pub fn new() -> (r: Self)
        ensures
            r == (Es2 {
                stream_type: 2,
                horizontal_size: None,
                vertical_size: None,
                aspect_ratio: None,
                frame_rate: None,
                bitrate: None,
            }),
    {
        Es2 {
            stream_type: 2,
            horizontal_size: None,
            vertical_size: None,
            aspect_ratio: None,
            frame_rate: None,
            bitrate: None,
        }
    }

    pub fn description(&self) -> (r: String)
        ensures
            r@ == es2_text(*self),
    {
        let h: u16 = self.horizontal_size.unwrap_or(0);
        let v: u16 = self.vertical_size.unwrap_or(0);
        let mut out = String::from_str("Video: mpeg2video ");
        push_decimal(&mut out, h as u64);
        out.append("x");
        push_decimal(&mut out, v as u64);
        out.append(", ");
        out.append(aspect_ratio_str(self.aspect_ratio));
        out.append(", ");
        out.append(frame_rate_str(self.frame_rate));
        out.append(" fps, ");
        let ghost before = out@;
        match self.bitrate {
            Some(b) => {
                if b == 0x3FFFF {
                    out.append("VBR");
                } else {
                    push_decimal(&mut out, (b as u64 * 400 + 999) / 1000);
                    out.append(" kbit/s");
                    assert(out@ =~= before + bitrate_text(self.bitrate));
                }
            },
            None => {
                out.append("-");
            },
        }
        out
    }
}

/// The bit rate in kbit/s that an index stands for in a table of fourteen.
pub open spec fn indexed_rate(table: Seq<int>, index: u8) -> Option<int> {
    if 1 <= index <= 14 {
        Some(table[index - 1])
    } else {
        None
    }
}

/// The bit rates of layer I with full sampling frequencies.
pub open spec fn rates_full_1() -> Seq<int> {
    seq![32, 64, 96, 128, 160, 192, 224, 256, 288, 320, 352, 384, 416, 448]
}

/// The bit rates of layer II with full sampling frequencies.
pub open spec fn rates_full_2() -> Seq<int> {
    seq![32, 48, 56, 64, 80, 96, 112, 128, 160, 192, 224, 256, 320, 384]
}

/// The bit rates of layer III with full sampling frequencies.
pub open spec fn rates_full_3() -> Seq<int> {
    seq![32, 40, 48, 56, 64, 80, 96, 112, 128, 160, 192, 224, 256, 320]
}

/// The bit rates of layer I with half sampling frequencies.
pub open spec fn rates_half_1() -> Seq<int> {
    seq![32, 48, 56, 64, 80, 96, 112, 128, 144, 160, 176, 192, 224, 256]
}

/// The bit rates of layers II and III with half sampling frequencies.
pub open spec fn rates_half_2() -> Seq<int> {
    seq![8, 16, 24, 32, 40, 48, 56, 64, 80, 96, 112, 128, 144, 160]
}

/// The bit rate of an audio stream with full sampling frequencies.
pub open spec fn full_rate(index: u8, layer: u8) -> Option<int> {
    if layer == 3 {
        indexed_rate(rates_full_1(), index)
    } else if layer == 2 {
        indexed_rate(rates_full_2(), index)
    } else if layer == 1 {
        indexed_rate(rates_full_3(), index)
    } else {
        None
    }
}

/// The bit rate of an audio stream with half sampling frequencies.
pub open spec fn half_rate(index: u8, layer: u8) -> Option<int> {
    if layer == 3 {
        indexed_rate(rates_half_1(), index)
    } else if layer == 2 || layer == 1 {
        indexed_rate(rates_half_2(), index)
    } else {
        None
    }
}

/// The words for a bit rate.
pub open spec fn rate_text(rate: Option<int>) -> Option<Seq<char>> {
    match rate {
        Some(n) => Some(decimal(n) + " kbit/s"@),
        None => None,
    }
}

fn rate_string(rate: u64) -> (r: String)
    ensures
        r@ == decimal(rate as int) + " kbit/s"@,
{
    let mut out = String::new();
    push_decimal(&mut out, rate);
    assert(out@ =~= decimal(rate as int));
    out.append(" kbit/s");
    out
}

/// The words for a bit rate that may be unknown.
pub open spec fn known_rate_text(rate: Option<int>) -> Seq<char> {
    match rate {
        Some(n) => decimal(n) + " kbit/s"@,
        None => "0"@,
    }
}

/// The words for an audio stream.
pub open spec fn audio_text(
    layer: Seq<char>,
    mode: Seq<char>,
    frequency: Seq<char>,
    rate: Seq<char>,
) -> Seq<char> {
    "Audio: mp2 ("@ + layer + ") "@ + mode + ", "@ + frequency + ", "@ + rate
}

fn audio_string(layer: &str, mode: &str, frequency: &str, rate: &str) -> (r: String)
    ensures
        r@ == audio_text(layer@, mode@, frequency@, rate@),
{
    let mut out = String::from_str("Audio: mp2 (");
    out.append(layer);
    out.append(") ");
    out.append(mode);
    out.append(", ");
    out.append(frequency);
    out.append(", ");
    out.append(rate);
    out
}

/// The words for a layer.
pub open spec fn layer_text(v: Option<u8>) -> Seq<char> {
    match v {
        Some(0b11) => "Layer I"@,
        Some(0b10) => "Layer II"@,
        Some(0b01) => "Layer III"@,
        _ => "None"@,
    }
}

fn layer_str(v: Option<u8>) -> (r: &'static str)
    ensures
        r@ == layer_text(v),
{
    match v {
        Some(0b11) => "Layer I",
        Some(0b10) => "Layer II",
        Some(0b01) => "Layer III",
        _ => "None",
    }
}

fn by_layer(layer: u8, one: u64, two: u64, three: u64) -> (r: u64)
    ensures
        r == if layer == 3 {
            one
        } else if layer == 2 {
            two
        } else {
            three
        },
{
    match layer {
        3 => one,
        2 => two,
        _ => three,
    }
}

/// An MPEG audio stream with full sampling frequencies.
#[derive(Debug, Clone, Copy, PartialEq, Eq, Structural)]
pub struct Es3 {
    pub stream_type: u8,
    pub id: Option<u8>,
    pub layer: Option<u8>,
    pub bit_rate_index: Option<u8>,
    pub sampling_frequency: Option<u8>,
    pub mode: Option<u8>,
    pub mode_extension: Option<u8>,
    pub copyright: Option<u8>,
    pub original: Option<u8>,
    pub emphasis: Option<u8>,
}

pub open spec fn es3_text(e: Es3) -> Seq<char> {
    audio_text(
        layer_text(e.layer),
        es3_mode_text(e.mode),
        es3_frequency_text(e.sampling_frequency),
        known_rate_text(
            match (e.bit_rate_index, e.layer) {
                (Some(index), Some(layer)) => full_rate(index, layer),
                _ => None,
            },
        ),
    )
}

/// The words for a mode.
pub open spec fn es3_mode_text(v: Option<u8>) -> Seq<char> {
    match v {
        Some(0b00) => "stereo"@,
        Some(0b01) => "joint_stereo (intensity_stereo and/or ms_stereo)"@,
        Some(0b10) => "dual_channel"@,
        Some(0b11) => "single_channel"@,
        _ => "None"@,
    }
}

fn mode_str_es3(v: Option<u8>) -> (r: &'static str)
    ensures
        r@ == es3_mode_text(v),
{
    match v {
        Some(0b00) => "stereo",
        Some(0b01) => "joint_stereo (intensity_stereo and/or ms_stereo)",
        Some(0b10) => "dual_channel",
        Some(0b11) => "single_channel",
        _ => "None",
    }
}

/// The words for a sampling frequency.
pub open spec fn es3_frequency_text(v: Option<u8>) -> Seq<char> {
    match v {
        Some(0b00) => "44.1kHz"@,
        Some(0b01) => "48kHz"@,
        Some(0b10) => "32kHz"@,
        _ => "None"@,
    }
}

fn sampling_freq_es3(v: Option<u8>) -> (r: &'static str)
    ensures
        r@ == es3_frequency_text(v),
{
    match v {
        Some(0b00) => "44.1kHz",
        Some(0b01) => "48kHz",
        Some(0b10) => "32kHz",
        _ => "None",
    }
}

impl Es3 {
    pub fn new() -> (r: Self)
        ensures
            r == (Es3 {
                stream_type: 3,
                id: None,
                layer: None,
                bit_rate_index: None,
                sampling_frequency: None,
                mode: None,
                mode_extension: None,
                copyright: None,
                original: None,
                emphasis: None,
            }),
    {
        Es3 {
            stream_type: 3,
            id: None,
            layer: None,
            bit_rate_index: None,
            sampling_frequency: None,
            mode: None,
            mode_extension: None,
            copyright: None,
            original: None,
            emphasis: None,
        }
    }

    /// The words for the bit rate that an index stands for in a layer.
    pub fn bit_rate_es3(&self, bit_rate_index: u8, layer: u8) -> (r: Option<String>)
        ensures
            r is Some == full_rate(bit_rate_index, layer) is Some,
            r matches Some(t) ==> rate_text(full_rate(bit_rate_index, layer)) == Some(t@),
    {
        if layer == 0 || layer > 3 {
            return None;
        }
        let rate: u64 = match bit_rate_index {
            0b0001 => by_layer(layer, 32, 32, 32),
            0b0010 => by_layer(layer, 64, 48, 40),
            0b0011 => by_layer(layer, 96, 56, 48),
            0b0100 => by_layer(layer, 128, 64, 56),
            0b0101 => by_layer(layer, 160, 80, 64),
            0b0110 => by_layer(layer, 192, 96, 80),
            0b0111 => by_layer(layer, 224, 112, 96),
            0b1000 => by_layer(layer, 256, 128, 112),
            0b1001 => by_layer(layer, 288, 160, 128),
            0b1010 => by_layer(layer, 320, 192, 160),
            0b1011 => by_layer(layer, 352, 224, 192),
            0b1100 => by_layer(layer, 384, 256, 224),
            0b1101 => by_layer(layer, 416, 320, 256),
            0b1110 => by_layer(layer, 448, 384, 320),
            _ => return None,
        };
        Some(rate_string(rate))
    }

    pub fn description(&self) -> (r: String)
        ensures
            r@ == es3_text(*self),
    {
        let rate = match (self.bit_rate_index, self.layer) {
            (Some(index), Some(layer)) => self.bit_rate_es3(index, layer),
            _ => None,
        };
        let rate_words = match rate {
            Some(words) => words,
            None => String::from_str("0"),
        };
        audio_string(
            layer_str(self.layer),
            mode_str_es3(self.mode),
            sampling_freq_es3(self.sampling_frequency),
            rate_words.as_str(),
        )
    }
}

/// An MPEG audio stream with half sampling frequencies.
#[derive(Debug, Clone, Copy, PartialEq, Eq, Structural)]
pub struct Es4 {
    pub stream_type: u8,
    pub id: Option<u8>,
    pub layer: Option<u8>,
    pub bit_rate_index: Option<u8>,
    pub sampling_frequency: Option<u8>,
    pub mode: Option<u8>,
    pub mode_extension: Option<u8>,
    pub copyright: Option<u8>,
    pub original: Option<u8>,
    pub emphasis: Option<u8>,
}

pub open spec fn es4_text(e: Es4) -> Seq<char> {
    audio_text(
        layer_text(e.layer),
        es4_mode_text(e.mode),
        es4_frequency_text(e.sampling_frequency),
        known_rate_text(
            match (e.bit_rate_index, e.layer) {
                (Some(index), Some(layer)) => half_rate(index, layer),
                _ => None,
            },
        ),
    )
}

/// The words for a mode.
pub open spec fn es4_mode_text(v: Option<u8>) -> Seq<char> {
    match v {
        Some(0b00) => "stereo"@,
        Some(0b01) => "joint_stereo (intensity_stereo and/or ms_stereo)"@,
        Some(0b10) => "dual_channel"@,
        Some(0b11) => "mono"@,
        _ => "None"@,
    }
}

fn mode_str_es4(v: Option<u8>) -> (r: &'static str)
    ensures
        r@ == es4_mode_text(v),
{
    match v {
        Some(0b00) => "stereo",
        Some(0b01) => "joint_stereo (intensity_stereo and/or ms_stereo)",
        Some(0b10) => "dual_channel",
        Some(0b11) => "mono",
        _ => "None",
    }
}

/// The words for a sampling frequency.
pub open spec fn es4_frequency_text(v: Option<u8>) -> Seq<char> {
    match v {
        Some(0b00) => "22.5kHz"@,
        Some(0b01) => "24kHz"@,
        Some(0b10) => "16kHz"@,
        _ => "None"@,
    }
}

fn sampling_freq_es4(v: Option<u8>) -> (r: &'static str)
    ensures
        r@ == es4_frequency_text(v),
{
    match v {
        Some(0b00) => "22.5kHz",
        Some(0b01) => "24kHz",
        Some(0b10) => "16kHz",
        _ => "None",
    }
}

impl Es4 {
    pub fn new() -> (r: Self)
        ensures
            r == (Es4 {
                stream_type: 4,
                id: None,
                layer: None,
                bit_rate_index: None,
                sampling_frequency: None,
                mode: None,
                mode_extension: None,
                copyright: None,
                original: None,
                emphasis: None,
            }),
    {
        Es4 {
            stream_type: 4,
            id: None,
            layer: None,
            bit_rate_index: None,
            sampling_frequency: None,
            mode: None,
            mode_extension: None,
            copyright: None,
            original: None,
            emphasis: None,
        }
    }

    /// The words for the bit rate that an index stands for in a layer.
    pub fn bit_rate_es4(&self, bit_rate_index: u8, layer: u8) -> (r: Option<String>)
        ensures
            r is Some == half_rate(bit_rate_index, layer) is Some,
            r matches Some(t) ==> rate_text(half_rate(bit_rate_index, layer)) == Some(t@),
    {
        if layer == 0 || layer > 3 {
            return None;
        }
        let rate: u64 = match bit_rate_index {
            0b0001 => by_layer(layer, 32, 8, 8),
            0b0010 => by_layer(layer, 48, 16, 16),
            0b0011 => by_layer(layer, 56, 24, 24),
            0b0100 => by_layer(layer, 64, 32, 32),
            0b0101 => by_layer(layer, 80, 40, 40),
            0b0110 => by_layer(layer, 96, 48, 48),
            0b0111 => by_layer(layer, 112, 56, 56),
            0b1000 => by_layer(layer, 128, 64, 64),
            0b1001 => by_layer(layer, 144, 80, 80),
            0b1010 => by_layer(layer, 160, 96, 96),
            0b1011 => by_layer(layer, 176, 112, 112),
            0b1100 => by_layer(layer, 192, 128, 128),
            0b1101 => by_layer(layer, 224, 144, 144),
            0b1110 => by_layer(layer, 256, 160, 160),
            _ => return None,
        };
        Some(rate_string(rate))
    }

    pub fn description(&self) -> (r: String)
        ensures
            r@ == es4_text(*self),
    {
        let rate = match (self.bit_rate_index, self.layer) {
            (Some(index), Some(layer)) => self.bit_rate_es4(index, layer),
            _ => None,
        };
        let rate_words = match rate {
            Some(words) => words,
            None => String::from_str("0"),
        };
        audio_string(
            layer_str(self.layer),
            mode_str_es4(self.mode),
            sampling_freq_es4(self.sampling_frequency),
            rate_words.as_str(),
        )
    }
}

/// An AAC audio stream.
#[derive(Debug, Clone, Copy, PartialEq, Eq, Structural)]
pub struct Es15 {
    pub stream_type: u8,
    pub id: Option<u8>,
    pub profile: Option<u8>,
    pub sampling_frequency: Option<u8>,
    pub channel_configuration: Option<u8>,
    pub copyright: Option<u8>,
    pub original: Option<u8>,
}

pub open spec fn es15_text(e: Es15) -> Seq<char> {
    "Audio aac ("@ + aac_profile_text(e.profile) + "), "@ + aac_channels_text(
        e.channel_configuration,
    ) + ", "@ + aac_frequency_text(e.sampling_frequency)
}

/// The words for an AAC profile.
pub open spec fn aac_profile_text(v: Option<u8>) -> Seq<char> {
    match v {
        Some(0) => "Main"@,
        Some(1) => "LC"@,
        Some(2) => "SSR"@,
        _ => "None"@,
    }
}

fn profile_es15(v: Option<u8>) -> (r: &'static str)
    ensures
        r@ == aac_profile_text(v),
{
    match v {
        Some(0) => "Main",
        Some(1) => "LC",
        Some(2) => "SSR",
        _ => "None",
    }
}

/// The words for an AAC sampling frequency.
pub open spec fn aac_frequency_text(v: Option<u8>) -> Seq<char> {
    match v {
        Some(0x0) => "96KHz"@,
        Some(0x1) => "88.2KHz"@,
        Some(0x2) => "64KHz"@,
        Some(0x3) => "48KHz"@,
        Some(0x4) => "44.1KHz"@,
        Some(0x5) => "32KHz"@,
        Some(0x6) => "24KHz"@,
        Some(0x7) => "22.05KHz"@,
        Some(0x8) => "16KHz"@,
        Some(0x9) => "12KHz"@,
        Some(0xA) => "11.025KHz"@,
        Some(0xB) => "8KHz"@,
        _ => "None"@,
    }
}

fn sampling_freq_es15(v: Option<u8>) -> (r: &'static str)
    ensures
        r@ == aac_frequency_text(v),
{
    match v {
        Some(0x0) => "96KHz",
        Some(0x1) => "88.2KHz",
        Some(0x2) => "64KHz",
        Some(0x3) => "48KHz",
        Some(0x4) => "44.1KHz",
        Some(0x5) => "32KHz",
        Some(0x6) => "24KHz",
        Some(0x7) => "22.05KHz",
        Some(0x8) => "16KHz",
        Some(0x9) => "12KHz",
        Some(0xA) => "11.025KHz",
        Some(0xB) => "8KHz",
        _ => "None",
    }
}

/// The words for a configuration of channels.
pub open spec fn aac_channels_text(v: Option<u8>) -> Seq<char> {
    match v {
        Some(1) => "Mono"@,
        Some(2) => "Stereo"@,
        Some(3) => "3.0"@,
        Some(4) => "4.0"@,
        Some(5) => "5.0"@,
        Some(6) => "5.1 Surround"@,
        Some(7) => "7.1 Surround"@,
        _ => "Unknown"@,
    }
}

fn channel_configuration_es15(v: Option<u8>) -> (r: &'static str)
    ensures
        r@ == aac_channels_text(v),
{
    match v {
        Some(1) => "Mono",
        Some(2) => "Stereo",
        Some(3) => "3.0",
        Some(4) => "4.0",
        Some(5) => "5.0",
        Some(6) => "5.1 Surround",
        Some(7) => "7.1 Surround",
        _ => "Unknown",
    }
}

impl Es15 {
    pub fn new() -> (r: Self)
        ensures
            r == (Es15 {
                stream_type: 15,
                id: None,
                profile: None,
                sampling_frequency: None,
                channel_configuration: None,
                copyright: None,
                original: None,
            }),
    {
        Es15 {
            stream_type: 15,
            id: None,
            profile: None,
            sampling_frequency: None,
            channel_configuration: None,
            copyright: None,
            original: None,
        }
    }

    pub fn description(&self) -> (r: String)
        ensures
            r@ == es15_text(*self),
    {
        let mut out = String::from_str("Audio aac (");
        out.append(profile_es15(self.profile));
        out.append("), ");
        out.append(channel_configuration_es15(self.channel_configuration));
        out.append(", ");
        out.append(sampling_freq_es15(self.sampling_frequency));
        out
    }
}

/// An H.264 video stream.
#[derive(Debug, Clone, Copy, PartialEq, Eq, Structural)]
pub struct Es27 {
    pub stream_type: u8,
    pub profile_idc: Option<u8>,
    pub level_idc: Option<u8>,
    pub seq_parameter_set_id: Option<u32>,
    pub horizontal_size: Option<u32>,
    pub vertical_size: Option<u32>,
    pub frame_rate: Option<u32>,
}

/// The words for a level, which is given in tenths.
pub open spec fn level_text(v: Option<u8>) -> Seq<char> {
    match v {
        Some(n) => decimal(n as int / 10) + "."@ + decimal(n as int % 10),
        None => "0.0"@,
    }
}

pub open spec fn es27_text(e: Es27) -> Seq<char> {
    "Video: h264 ("@ + avc_profile_text(e.profile_idc) + "), "@ + decimal(
        or_zero32(e.horizontal_size),
    ) + "x"@ + decimal(or_zero32(e.vertical_size)) + ", level "@ + level_text(e.level_idc) + ", "@
        + decimal(or_zero32(e.frame_rate)) + " fps"@
}

/// The words for an H.264 profile.
pub open spec fn avc_profile_text(v: Option<u8>) -> Seq<char> {
    match v {
        Some(66) => "Baseline"@,
        Some(77) => "Main"@,
        Some(88) => "Extended"@,
        Some(100) => "High"@,
        Some(110) => "Hight 10"@,
        Some(122) => "High 4:2:2"@,
        Some(244) => "High 4:4:4 Predictive"@,
        Some(44) => "CAVLC 4:4:4 Intra"@,
        _ => "None"@,
    }
}

fn profile_es27(v: Option<u8>) -> (r: &'static str)
    ensures
        r@ == avc_profile_text(v),
{
    match v {
        Some(66) => "Baseline",
        Some(77) => "Main",
        Some(88) => "Extended",
        Some(100) => "High",
        Some(110) => "Hight 10",
        Some(122) => "High 4:2:2",
        Some(244) => "High 4:4:4 Predictive",
        Some(44) => "CAVLC 4:4:4 Intra",
        _ => "None",
    }
}

fn level_string(v: Option<u8>) -> (r: String)
    ensures
        r@ == level_text(v),
{
    match v {
        Some(n) => {
            let mut out = String::new();
            push_decimal(&mut out, (n / 10) as u64);
            assert(out@ =~= decimal(n as int / 10));
            out.append(".");
            push_decimal(&mut out, (n % 10) as u64);
            out
        },
        None => String::from_str("0.0"),
    }
}

impl Es27 {
    pub fn new() -> (r: Self)
        ensures
            r == (Es27 {
                stream_type: 27,
                profile_idc: None,
                level_idc: None,
                seq_parameter_set_id: None,
                horizontal_size: None,
                vertical_size: None,
                frame_rate: None,
            }),
    {
        Es27 {
            stream_type: 27,
            profile_idc: None,
            level_idc: None,
            seq_parameter_set_id: None,
            horizontal_size: None,
            vertical_size: None,
            frame_rate: None,
        }
    }

    pub fn description(&self) -> (r: String)
        ensures
            r@ == es27_text(*self),
    {
        let mut out = String::from_str("Video: h264 (");
        out.append(profile_es27(self.profile_idc));
        out.append("), ");
        push_decimal(&mut out, self.horizontal_size.unwrap_or(0) as u64);
        out.append("x");
        push_decimal(&mut out, self.vertical_size.unwrap_or(0) as u64);
        out.append(", level ");
        out.append(level_string(self.level_idc).as_str());
        out.append(", ");
        push_decimal(&mut out, self.frame_rate.unwrap_or(0) as u64);
        out.append(" fps");
        out
    }
}

} // verus!
