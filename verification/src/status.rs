//! Figures that are reported about inputs and outputs, and the messages in which
//! they are reported.

use crate::buffer::{buffer_len, held_bytes};
use crate::mux::out_buffer::{duration_of, size_of_packets, OutBuffer};
use crate::psi::time::UtcTime;
use bytes::BytesMut;
use crate::text::{decimal, push_decimal};
use std::collections::HashMap;
use url::Url;
use vstd::prelude::*;
use vstd::string::StringExecFns;

verus! {

broadcast use vstd::std_specs::hash::group_hash_axioms;

/// What a message to the administration is about.
#[derive(Debug, Clone, Copy, PartialEq, Eq, Structural)]
pub enum ApiActions {
    Status,
    Event,
    Log,
    Cmd,
}

impl ApiActions {
    /// The word that stands for it.
    pub fn as_str(&self) -> (r: &'static str)
        ensures
            r@ == action_word(*self),
    {
        match self {
            ApiActions::Status => "status",
            ApiActions::Event => "event",
            ApiActions::Log => "log",
            ApiActions::Cmd => "cmd",
        }
    }
}

/// How much waits in a buffer.
#[derive(Debug, Clone, Copy, PartialEq, Eq, Structural)]
pub struct BufferStats {
    pub size: usize,
    pub duration: u64,
}

/// Figures about an input.
#[derive(Debug, Clone, Copy, PartialEq, Eq, Structural)]
pub struct InputStats {
    pub start_timestamp: i64,
    pub bitrate: u64,
    pub max_bitrate: u64,
}

impl InputStats {
    /// Figures that start at an instant.
    pub fn new(now: &UtcTime) -> (r: Self)
        ensures
            r == (InputStats { start_timestamp: now.secs, bitrate: 0, max_bitrate: 0 }),
    {
        InputStats { start_timestamp: now.secs, bitrate: 0, max_bitrate: 0 }
    }

    /// Notes the bit rate, and the highest one so far.
    pub fn update_bitrate(&mut self, bitrate: u64)
        ensures
            *final(self) == (InputStats {
                bitrate,
                max_bitrate: if bitrate > old(self).max_bitrate {
                    bitrate
                } else {
                    old(self).max_bitrate
                },
                ..*old(self)
            }),
    {
        self.bitrate = bitrate;
        if bitrate > self.max_bitrate {
            self.max_bitrate = bitrate;
        }
    }
}

/// Figures about an output.
pub struct OutputStats {
    pub start_timestamp: i64,
    pub last_ready_timestamp: i64,
    pub in_buffer_len: u64,
    pub bitrate: u64,
    pub bitrate_psi: u64,
    pub bitrate_payload: u64,
    pub bitrate_null: u64,
    pub bitrate_adjust_payload: u64,
    pub bitrate_adjust_null: u64,
    pub fps: u64,
    pub v_buffer_stats: BufferStats,
    pub a_buffer_stats: BufferStats,
    pub dts_drift: HashMap<u16, i64>,
    pub pcr_drift: i64,
    pub buffer_duration_ms: u64,
    pub jitter_ms: u64,
    pub adjust_buf: u64,
    pub cc: HashMap<u16, usize>,
    pub dirty: usize,
}

/// What the figures about an output say.
#[verifier::ext_equal]
pub struct StatsModel {
    pub start_timestamp: i64,
    pub last_ready_timestamp: i64,
    pub in_buffer_len: u64,
    pub bitrate: u64,
    pub bitrate_psi: u64,
    pub bitrate_payload: u64,
    pub bitrate_null: u64,
    pub bitrate_adjust_payload: u64,
    pub bitrate_adjust_null: u64,
    pub fps: u64,
    pub v_buffer_stats: BufferStats,
    pub a_buffer_stats: BufferStats,
    pub dts_drift: Map<u16, i64>,
    pub pcr_drift: i64,
    pub buffer_duration_ms: u64,
    pub jitter_ms: u64,
    pub adjust_buf: u64,
    pub cc: Map<u16, usize>,
    pub dirty: usize,
}

impl View for OutputStats {
    type V = StatsModel;

    open spec fn view(&self) -> StatsModel {
        StatsModel {
            start_timestamp: self.start_timestamp,
            last_ready_timestamp: self.last_ready_timestamp,
            in_buffer_len: self.in_buffer_len,
            bitrate: self.bitrate,
            bitrate_psi: self.bitrate_psi,
            bitrate_payload: self.bitrate_payload,
            bitrate_null: self.bitrate_null,
            bitrate_adjust_payload: self.bitrate_adjust_payload,
            bitrate_adjust_null: self.bitrate_adjust_null,
            fps: self.fps,
            v_buffer_stats: self.v_buffer_stats,
            a_buffer_stats: self.a_buffer_stats,
            dts_drift: self.dts_drift@,
            pcr_drift: self.pcr_drift,
            buffer_duration_ms: self.buffer_duration_ms,
            jitter_ms: self.jitter_ms,
            adjust_buf: self.adjust_buf,
            cc: self.cc@,
            dirty: self.dirty,
        }
    }
}

/// Figures that start at an instant.
pub open spec fn fresh_stats(secs: i64) -> StatsModel {
    StatsModel {
        start_timestamp: secs,
        last_ready_timestamp: secs,
        in_buffer_len: 0,
        bitrate: 0,
        bitrate_psi: 0,
        bitrate_payload: 0,
        bitrate_null: 0,
        bitrate_adjust_payload: 0,
        bitrate_adjust_null: 0,
        fps: 0,
        v_buffer_stats: BufferStats { size: 0, duration: 0 },
        a_buffer_stats: BufferStats { size: 0, duration: 0 },
        dts_drift: Map::empty(),
        pcr_drift: 0,
        buffer_duration_ms: 0,
        jitter_ms: 0,
        adjust_buf: 0,
        cc: Map::empty(),
        dirty: 0,
    }
}

/// The bits of a number of packets, modulo 2^64.
pub open spec fn packet_bits(count: usize) -> u64 {
    ((count * 1504) % 0x1_0000_0000_0000_0000) as u64
}

/// The bits of a number of packets, modulo 2^64.
fn bits_of_packets(count: usize) -> (r: u64)
    ensures
        r == packet_bits(count),
{
    ((count as u128 * 1504) % 0x1_0000_0000_0000_0000) as u64
}

/// How much waits in a buffer with these packets.
pub open spec fn buffer_stats_of(s: Seq<crate::mux::out_buffer::PacketModel>) -> BufferStats {
    BufferStats { size: size_of_packets(s.len() as int) as usize, duration: duration_of(s) }
}

impl OutputStats {
    /// Figures that start at an instant.
    pub fn new(now: &UtcTime) -> (r: Self)
        ensures
            r@ == fresh_stats(now.secs),
    {
        let r = OutputStats {
            start_timestamp: now.secs,
            last_ready_timestamp: now.secs,
            in_buffer_len: 0,
            bitrate: 0,
            bitrate_psi: 0,
            bitrate_payload: 0,
            bitrate_null: 0,
            bitrate_adjust_payload: 0,
            bitrate_adjust_null: 0,
            fps: 0,
            v_buffer_stats: BufferStats { size: 0, duration: 0 },
            a_buffer_stats: BufferStats { size: 0, duration: 0 },
            dts_drift: HashMap::new(),
            pcr_drift: 0,
            buffer_duration_ms: 0,
            jitter_ms: 0,
            adjust_buf: 0,
            cc: HashMap::new(),
            dirty: 0,
        };
        assert(r@ =~= fresh_stats(now.secs));
        r
    }

    /// Notes how many bytes were taken in and not looked at yet.
    pub fn update_in_buffer(&mut self, in_buff: &BytesMut)
        ensures
            final(self)@ == (StatsModel {
                in_buffer_len: held_bytes(*in_buff).len() as u64,
                ..old(self)@
            }),
    {
        self.in_buffer_len = buffer_len(in_buff) as u64;
    }

    pub fn update_bitrate(&mut self, bitrate: u64)
        ensures
            final(self)@ == (StatsModel { bitrate, ..old(self)@ }),
    {
        self.bitrate = bitrate;
    }

    /// Notes the bits of the table packets of the last second, and counts anew.
    pub fn update_bitrate_psi(&mut self, count_packets: &mut usize)
        ensures
            final(self)@ == (StatsModel {
                bitrate_psi: packet_bits(*old(count_packets)),
                ..old(self)@
            }),
            *final(count_packets) == 0,
    {
        self.bitrate_psi = bits_of_packets(*count_packets);
        *count_packets = 0;
    }

    /// Notes the bits of the payload packets of the last second, and counts
    /// anew.
    pub fn update_bitrate_payload(&mut self, count_packets: &mut usize)
        ensures
            final(self)@ == (StatsModel {
                bitrate_payload: packet_bits(*old(count_packets)),
                ..old(self)@
            }),
            *final(count_packets) == 0,
    {
        self.bitrate_payload = bits_of_packets(*count_packets);
        *count_packets = 0;
    }

    /// Notes the bits of the null packets of the last second, and counts anew.
    pub fn update_bitrate_null(&mut self, count_packets: &mut usize)
        ensures
            final(self)@ == (StatsModel {
                bitrate_null: packet_bits(*old(count_packets)),
                ..old(self)@
            }),
            *final(count_packets) == 0,
    {
        self.bitrate_null = bits_of_packets(*count_packets);
        *count_packets = 0;
    }

    /// Notes the bits of the null packets that were sent to let the buffer fill
    /// up, and counts anew.
    pub fn update_bitrate_adjust_null(&mut self, count_packets: &mut usize)
        ensures
            final(self)@ == (StatsModel {
                bitrate_adjust_null: packet_bits(*old(count_packets)),
                ..old(self)@
            }),
            *final(count_packets) == 0,
    {
        self.bitrate_adjust_null = bits_of_packets(*count_packets);
        *count_packets = 0;
    }

    /// Notes the bits of the payload packets that were sent ahead of their time,
    /// and counts anew.
    pub fn update_bitrate_adjust_payload(&mut self, count_packets: &mut usize)
        ensures
            final(self)@ == (StatsModel {
                bitrate_adjust_payload: packet_bits(*old(count_packets)),
                ..old(self)@
            }),
            *final(count_packets) == 0,
    {
        self.bitrate_adjust_payload = bits_of_packets(*count_packets);
        *count_packets = 0;
    }

    /// Notes the frame rate in hundredths.
    pub fn update_fps(&mut self, fps_hundredths: u64)
        ensures
            final(self)@ == (StatsModel { fps: fps_hundredths, ..old(self)@ }),
    {
        self.fps = fps_hundredths;
    }

    /// Notes by how many milliseconds the decoding times of a stream lead the
    /// clock.
    pub fn update_dts_drift(&mut self, pid: u16, dts_drift: i64)
        ensures
            final(self)@ == (StatsModel {
                dts_drift: old(self)@.dts_drift.insert(pid, dts_drift),
                ..old(self)@
            }),
    {
        self.dts_drift.insert(pid, dts_drift);
    }

    pub fn update_pcr_drift(&mut self, pcr_drift: i64)
        ensures
            final(self)@ == (StatsModel { pcr_drift, ..old(self)@ }),
    {
        self.pcr_drift = pcr_drift;
    }

    pub fn update_buffer_duration(&mut self, duration: u64)
        ensures
            final(self)@ == (StatsModel { buffer_duration_ms: duration, ..old(self)@ }),
    {
        self.buffer_duration_ms = duration;
    }

    pub fn update_jitter(&mut self, jitter: u64)
        ensures
            final(self)@ == (StatsModel { jitter_ms: jitter, ..old(self)@ }),
    {
        self.jitter_ms = jitter;
    }

    pub fn update_adjust_buf(&mut self, adjust_buf: u64)
        ensures
            final(self)@ == (StatsModel { adjust_buf, ..old(self)@ }),
    {
        self.adjust_buf = adjust_buf;
    }

    /// Takes over the counts of continuity errors; those of streams that are not
    /// among them stay.
    pub fn update_cc(&mut self, cc: &HashMap<u16, usize>)
        ensures
            final(self)@ == (StatsModel {
                cc: old(self)@.cc.union_prefer_right(cc@),
                ..old(self)@
            }),
    {
        let ghost before = self@;
        for (pid, count) in it: cc.iter()
            invariant
                self@ == (StatsModel { cc: self@.cc, ..before }),
                forall|j: int| #![trigger it.seq()[j]]
                    0 <= j < it.seq().len() ==> cc@.contains_key(*it.seq()[j].0)
                        && cc@[*it.seq()[j].0] == *it.seq()[j].1,
                forall|k: u16| #[trigger]
                    cc@.contains_key(k) ==> it.seq().contains((&k, &cc@[k])),
                forall|j: int| #![trigger it.seq()[j]]
                    0 <= j < it.index() ==> self@.cc.contains_key(*it.seq()[j].0)
                        && self@.cc[*it.seq()[j].0] == *it.seq()[j].1,
                forall|k: u16|
                    (forall|j: int| #![trigger it.seq()[j]]
                        0 <= j < it.index() ==> *it.seq()[j].0 != k) ==> (
                    #[trigger] self@.cc.contains_key(k) == before.cc.contains_key(k) && (
                    before.cc.contains_key(k) ==> self@.cc[k] == before.cc[k])),
        {
            self.cc.insert(*pid, *count);
        }
        assert(self@.cc =~= before.cc.union_prefer_right(cc@));
    }

    pub fn update_dirty(&mut self, dirty: bool)
        ensures
            final(self)@ == (StatsModel {
                dirty: if dirty {
                    1
                } else {
                    0
                },
                ..old(self)@
            }),
    {
        self.dirty = if dirty {
            1
        } else {
            0
        };
    }

    pub fn update_ready_time(&mut self, last_ready_time: &UtcTime)
        ensures
            final(self)@ == (StatsModel {
                last_ready_timestamp: last_ready_time.secs,
                ..old(self)@
            }),
    {
        self.last_ready_timestamp = last_ready_time.secs;
    }

    pub fn update_v_buffer(&mut self, buffer: &OutBuffer)
        ensures
            final(self)@ == (StatsModel { v_buffer_stats: buffer_stats_of(buffer@), ..old(self)@ }),
    {
        self.v_buffer_stats = BufferStats { size: buffer.size(), duration: buffer.duration() };
    }

    pub fn update_a_buffer(&mut self, buffer: &OutBuffer)
        ensures
            final(self)@ == (StatsModel { a_buffer_stats: buffer_stats_of(buffer@), ..old(self)@ }),
    {
        self.a_buffer_stats = BufferStats { size: buffer.size(), duration: buffer.duration() };
    }
}

// ---- Messages ----

/// A text as a string in JSON.
pub uninterp spec fn json_string(text: Seq<char>) -> Seq<char>;

/// `serde_json::Value::from` and `Value::to_string`: a text as a string in JSON,
/// with quotes around it and escapes in it.
#[verifier::external_body]
fn json_quoted(text: &str) -> (r: String)
    ensures
        r@ == json_string(text@),
{
    serde_json::Value::from(text).to_string()
}

/// A URL with another path.
pub uninterp spec fn url_with_path(url: Seq<char>, path: Seq<char>) -> Option<Seq<char>>;

/// `Url::parse` and `Url::set_path`: a URL with another path, if it is one.
#[verifier::external_body]
fn set_url_path(url: &str, path: &str) -> (r: Option<String>)
    ensures
        (match r {
            Some(u) => Some(u@),
            None => None,
        }) == url_with_path(url@, path@),
{
    let mut u = Url::parse(url).ok()?;
    u.set_path(path);
    Some(u.to_string())
}

/// How the administration is reached.
#[derive(Debug, Clone)]
pub struct ApiConfig {
    pub admin_url: String,
    pub hash: String,
    pub last_update: String,
}

/// Where messages go.
pub fn client_url(admin_url: &str) -> (r: Option<String>)
    ensures
        (match r {
            Some(u) => Some(u@),
            None => None,
        }) == url_with_path(admin_url@, "/api/client"@),
{
    set_url_path(admin_url, "/api/client")
}

/// Where the events of a guide come from.
pub fn epg_url(admin_url: &str, id: u32) -> (r: Option<String>)
    ensures
        (match r {
            Some(u) => Some(u@),
            None => None,
        }) == url_with_path(admin_url@, "/api/epg/id/"@ + decimal(id as int)),
{
    let mut path = String::from_str("/api/epg/id/");
    push_decimal(&mut path, id as u64);
    set_url_path(admin_url, path.as_str())
}

/// The word for what a message is about.
pub open spec fn action_word(a: ApiActions) -> Seq<char> {
    match a {
        ApiActions::Status => "status"@,
        ApiActions::Event => "event"@,
        ApiActions::Log => "log"@,
        ApiActions::Cmd => "cmd"@,
    }
}

/// A message in JSON. `data` is its content, in JSON too.
pub open spec fn api_message(
    config: ApiConfig,
    time: Seq<char>,
    action: ApiActions,
    data: Seq<char>,
) -> Seq<char> {
    "{\"action\":"@ + json_string(action_word(action)) + ",\"data\":"@ + data + ",\"hash\":"@
        + json_string(config.hash@) + ",\"last_update\":"@ + json_string(config.last_update@)
        + ",\"time\":"@ + json_string(time) + "}"@
}

fn api_data(api_config: &ApiConfig, time: &str, action: ApiActions, data: &str) -> (r: String)
    ensures
        r@ == api_message(*api_config, time@, action, data@),
{
    let mut t = String::from_str("{\"action\":");
    t.append(json_quoted(action.as_str()).as_str());
    t.append(",\"data\":");
    t.append(data);
    t.append(",\"hash\":");
    t.append(json_quoted(api_config.hash.as_str()).as_str());
    t.append(",\"last_update\":");
    t.append(json_quoted(api_config.last_update.as_str()).as_str());
    t.append(",\"time\":");
    t.append(json_quoted(time).as_str());
    t.append("}");
    t
}

/// A message about the whole server.
pub fn api_data_status(api_config: &ApiConfig, time: &str, data: &str) -> (r: String)
    ensures
        r@ == api_message(*api_config, time@, ApiActions::Status, data@),
{
    api_data(api_config, time, ApiActions::Status, data)
}

/// A message about something that happened.
pub fn api_data_event(api_config: &ApiConfig, time: &str, data: &str) -> (r: String)
    ensures
        r@ == api_message(*api_config, time@, ApiActions::Event, data@),
{
    api_data(api_config, time, ApiActions::Event, data)
}

/// A message for the log.
pub fn api_data_log(api_config: &ApiConfig, time: &str, data: &str) -> (r: String)
    ensures
        r@ == api_message(*api_config, time@, ApiActions::Log, data@),
{
    api_data(api_config, time, ApiActions::Log, data)
}

/// A message with a command.
pub fn api_data_cmd(api_config: &ApiConfig, time: &str, data: &str) -> (r: String)
    ensures
        r@ == api_message(*api_config, time@, ApiActions::Cmd, data@),
{
    api_data(api_config, time, ApiActions::Cmd, data)
}

/// The content of a message for the log.
pub open spec fn log_content(
    worker_id: u32,
    output_id: u32,
    message: Seq<char>,
    level: Seq<char>,
) -> Seq<char> {
    "{\"level\":"@ + json_string(level) + ",\"message\":"@ + json_string(message)
        + ",\"output_id\":"@ + decimal(output_id as int) + ",\"worker_id\":"@ + decimal(
        worker_id as int,
    ) + "}"@
}

/// The content of a message for the log.
pub fn log_data(worker_id: u32, output_id: u32, message: &str, level: &str) -> (r: String)
    ensures
        r@ == log_content(worker_id, output_id, message@, level@),
{
    let mut t = String::from_str("{\"level\":");
    t.append(json_quoted(level).as_str());
    t.append(",\"message\":");
    t.append(json_quoted(message).as_str());
    t.append(",\"output_id\":");
    push_decimal(&mut t, output_id as u64);
    t.append(",\"worker_id\":");
    push_decimal(&mut t, worker_id as u64);
    t.append("}");
    t
}

/// The content of a message with a command.
pub open spec fn cmd_content(worker_id: u32, output_id: u32, cmd: Seq<char>) -> Seq<char> {
    "{\"cmd\":"@ + json_string(cmd) + ",\"output_id\":"@ + decimal(output_id as int)
        + ",\"worker_id\":"@ + decimal(worker_id as int) + "}"@
}

/// The content of a message with a command.
pub fn cmd_data(worker_id: u32, output_id: u32, cmd: &str) -> (r: String)
    ensures
        r@ == cmd_content(worker_id, output_id, cmd@),
{
    let mut t = String::from_str("{\"cmd\":");
    t.append(json_quoted(cmd).as_str());
    t.append(",\"output_id\":");
    push_decimal(&mut t, output_id as u64);
    t.append(",\"worker_id\":");
    push_decimal(&mut t, worker_id as u64);
    t.append("}");
    t
}

/// The content of a message about something that happened. What came of it is a
/// text in JSON.
pub open spec fn event_content(
    event: Seq<char>,
    message: Seq<char>,
    result: Option<Seq<char>>,
    success: bool,
) -> Seq<char> {
    "{\"event\":"@ + json_string(event) + ",\"message\":"@ + json_string(message)
        + ",\"result\":"@ + (match result {
        Some(t) => t,
        None => "null"@,
    }) + ",\"success\":"@ + (if success {
        "true"@
    } else {
        "false"@
    }) + "}"@
}

/// The content of a message about something that happened.
pub fn event_data(event: &str, message: &str, result: &Option<String>, success: bool) -> (r: String)
    ensures
        r@ == event_content(event@, message@, crate::psi::pmt::text_of(*result), success),
{
    let mut t = String::from_str("{\"event\":");
    t.append(json_quoted(event).as_str());
    t.append(",\"message\":");
    t.append(json_quoted(message).as_str());
    t.append(",\"result\":");
    match result {
        Some(text) => t.append(text.as_str()),
        None => t.append("null"),
    }
    t.append(",\"success\":");
    if success {
        t.append("true");
    } else {
        t.append("false");
    }
    t.append("}");
    t
}

/// Whether a value stands behind a key in a text.
pub open spec fn says(text: Seq<char>, key: Seq<char>, value: Seq<char>) -> bool {
    exists|a: Seq<char>, b: Seq<char>| #[trigger] stands(text, a, key + value, b)
}

/// Whether a part of a text stands between two others.
pub open spec fn stands(text: Seq<char>, a: Seq<char>, part: Seq<char>, b: Seq<char>) -> bool {
    text == a + part + b
}

proof fn lemma_says(text: Seq<char>, a: Seq<char>, key: Seq<char>, value: Seq<char>, b: Seq<char>)
    requires
        text == a + key + value + b,
    ensures
        says(text, key, value),
{
    assert(a + key + value + b =~= a + (key + value) + b);
    assert(stands(text, a, key + value, b));
}

/// A message for the log says how it is shown, what it says, and of which output of which
/// worker.
pub proof fn law_log_says(
    worker_id: u32,
    output_id: u32,
    message: Seq<char>,
    level: Seq<char>,
)
    ensures
        ({
            let t = log_content(worker_id, output_id, message, level);
            &&& says(t, "{\"level\":"@, json_string(level))
            &&& says(t, ",\"message\":"@, json_string(message))
            &&& says(t, ",\"output_id\":"@, decimal(output_id as int))
            &&& says(t, ",\"worker_id\":"@, decimal(worker_id as int))
        }),
{
    let t = log_content(worker_id, output_id, message, level);
    let k1 = "{\"level\":"@;
    let v1 = json_string(level);
    let k2 = ",\"message\":"@;
    let v2 = json_string(message);
    let k3 = ",\"output_id\":"@;
    let v3 = decimal(output_id as int);
    let k4 = ",\"worker_id\":"@;
    let v4 = decimal(worker_id as int);
    let none = Seq::<char>::empty();
    assert(t =~= none + k1 + v1 + (k2 + v2 + k3 + v3 + k4 + v4 + "}"@));
    lemma_says(t, none, k1, v1, k2 + v2 + k3 + v3 + k4 + v4 + "}"@);
    assert(t =~= (k1 + v1) + k2 + v2 + (k3 + v3 + k4 + v4 + "}"@));
    lemma_says(t, k1 + v1, k2, v2, k3 + v3 + k4 + v4 + "}"@);
    assert(t =~= (k1 + v1 + k2 + v2) + k3 + v3 + (k4 + v4 + "}"@));
    lemma_says(t, k1 + v1 + k2 + v2, k3, v3, k4 + v4 + "}"@);
    assert(t =~= (k1 + v1 + k2 + v2 + k3 + v3) + k4 + v4 + "}"@);
    lemma_says(t, k1 + v1 + k2 + v2 + k3 + v3, k4, v4, "}"@);
}

/// A message with a command says the command, and for which output of which worker.
pub proof fn law_command_says(worker_id: u32, output_id: u32, cmd: Seq<char>)
    ensures
        ({
            let t = cmd_content(worker_id, output_id, cmd);
            &&& says(t, "{\"cmd\":"@, json_string(cmd))
            &&& says(t, ",\"output_id\":"@, decimal(output_id as int))
            &&& says(t, ",\"worker_id\":"@, decimal(worker_id as int))
        }),
{
    let t = cmd_content(worker_id, output_id, cmd);
    let k1 = "{\"cmd\":"@;
    let v1 = json_string(cmd);
    let k2 = ",\"output_id\":"@;
    let v2 = decimal(output_id as int);
    let k3 = ",\"worker_id\":"@;
    let v3 = decimal(worker_id as int);
    let none = Seq::<char>::empty();
    assert(t =~= none + k1 + v1 + (k2 + v2 + k3 + v3 + "}"@));
    lemma_says(t, none, k1, v1, k2 + v2 + k3 + v3 + "}"@);
    assert(t =~= (k1 + v1) + k2 + v2 + (k3 + v3 + "}"@));
    lemma_says(t, k1 + v1, k2, v2, k3 + v3 + "}"@);
    assert(t =~= (k1 + v1 + k2 + v2) + k3 + v3 + "}"@);
    lemma_says(t, k1 + v1 + k2 + v2, k3, v3, "}"@);
}

} // verus!
