//! What is configured: streams, their outputs and programs, the guide and the
//! routes.

use crate::text::{decimal, push_decimal, same_text};
use vstd::prelude::*;
use vstd::string::StringExecFns;

verus! {

pub const PID_FILE: &'static str = "pid/mymuxer.pid";

pub const CONFIG_FILE: &'static str = "config/config.json";

pub const DATABASE_FILE: &'static str = "data/mymuxer.redb";

pub const LOG_DIR: &'static str = "logs";

pub const STREAMS_LOG_DIR: &'static str = "logs/streams";

/// The value of `ca_flag` under which an output is sent without its descriptors
/// of conditional access.
pub const CA_FLAG_UNSCRAMBLED: usize = 1;

/// A server that hands out routes to the addresses that `allow` lists.
#[derive(Debug, Clone)]
pub struct HttpRouterConfig {
    pub id: u32,
    pub url: String,
    pub routes: Vec<String>,
    pub allow: Vec<String>,
}

/// Where a program guide is sent.
#[derive(Debug, Clone)]
pub struct EpgConfig {
    pub id: u32,
    pub url: String,
}

/// The whole configuration.
#[derive(Debug, Clone)]
pub struct Config {
    pub mgnt: Mgnt,
    pub epg_configs: Vec<EpgConfig>,
    pub streams: Vec<Stream>,
    pub http_routers: Vec<HttpRouterConfig>,
}

/// How the server is managed. The time of the last update is kept as the text
/// that is reported.
#[derive(Debug, Clone)]
pub struct Mgnt {
    pub hash: String,
    pub last_update: String,
    pub admin_url: String,
    pub allow: Vec<String>,
}

/// A stream that is taken in, and where it is sent.
#[derive(Debug, Clone)]
pub struct Stream {
    pub id: u32,
    pub remote_url: String,
    pub biss_key: String,
    pub name: String,
    pub task_type: String,
    pub outputs: Vec<Output>,
    pub err_count: u32,
}

/// Where and how a stream is sent.
#[derive(Debug, Clone)]
pub struct Output {
    pub id: u32,
    pub name: String,
    pub output_url: String,
    pub task_type: String,
    pub biss_key: String,
    pub ca_flag: usize,
    pub pkt_size: u16,
    pub cbr: u32,
    pub proxy: bool,
    pub allow: Vec<String>,
    pub programs: Vec<Program>,
    pub err_count: u32,
}

/// A program of an output.
#[derive(Debug, Clone)]
pub struct Program {
    pub program_id: u16,
    pub audio_pids: Vec<u16>,
    pub video_pids: Vec<u16>,
    pub pmt_pid: u16,
    pub pcr_pid: u16,
    pub service_name: String,
    pub service_provider_name: String,
    pub service_type: u32,
    pub buffer_duration: u32,
    pub jitter: u32,
    pub adjust_buf: u32,
}

/// The first stream with an identifier, as its place in the list.
pub open spec fn stream_index(streams: Seq<Stream>, id: u32) -> Option<int>
    decreases streams.len(),
{
    if streams.len() == 0 {
        None
    } else if streams[0].id == id {
        Some(0)
    } else {
        match stream_index(streams.drop_first(), id) {
            Some(i) => Some(i + 1),
            None => None,
        }
    }
}

impl Config {
    /// The first stream with the identifier.
    pub fn get_stream(&self, id: u32) -> (r: Option<&Stream>)
        ensures
            r is Some == stream_index(self.streams@, id) is Some,
            r matches Some(s) ==> *s == self.streams@[stream_index(self.streams@, id)->0] && s.id
                == id,
    {
        let mut i: usize = 0;
        assert(self.streams@.skip(0) =~= self.streams@);
        while i < self.streams.len()
            invariant
                i <= self.streams@.len(),
                stream_index(self.streams@, id) is Some == stream_index(
                    self.streams@.skip(i as int),
                    id,
                ) is Some,
                stream_index(self.streams@, id) is Some ==> stream_index(self.streams@, id)->0 == i
                    + stream_index(self.streams@.skip(i as int), id)->0,
            decreases self.streams@.len() - i,
        {
            assert(self.streams@.skip(i as int).drop_first() =~= self.streams@.skip(i + 1));
            if self.streams[i].id == id {
                return Some(&self.streams[i]);
            }
            i = i + 1;
        }
        None
    }
}

/// Whether a stream can be taken in or sent this way.
pub open spec fn allowed_task(t: Seq<char>) -> bool {
    t == "udp"@ || t == "rtp"@ || t == "http"@ || t == "ffmpeg"@ || t == "hls"@ || t == "unix"@
}

/// Whether a stream can be taken in or sent this way.
pub fn is_task_type_allowed(task_type: &str) -> (r: bool)
    ensures
        r == allowed_task(task_type@),
{
    same_text(task_type, "udp") || same_text(task_type, "rtp") || same_text(task_type, "http")
        || same_text(task_type, "ffmpeg") || same_text(task_type, "hls") || same_text(
        task_type,
        "unix",
    )
}

/// What is said of a stream of an unknown kind.
pub open spec fn stream_fault(s: Stream) -> Seq<char> {
    "Stream "@ + decimal(s.id as int) + " has unsupported task_type "@ + s.task_type@
}

/// What is said of an output of an unknown kind.
pub open spec fn output_fault(o: Output, stream_id: u32) -> Seq<char> {
    "Output "@ + decimal(o.id as int) + " of stream "@ + decimal(stream_id as int)
        + " has unsupported task_type "@ + o.task_type@
}

/// The first fault of the outputs of a stream.
pub open spec fn outputs_fault(outputs: Seq<Output>, stream_id: u32) -> Option<Seq<char>>
    decreases outputs.len(),
{
    if outputs.len() == 0 {
        None
    } else if !allowed_task(outputs[0].task_type@) {
        Some(output_fault(outputs[0], stream_id))
    } else {
        outputs_fault(outputs.drop_first(), stream_id)
    }
}

/// The first fault of a list of streams: each is looked at before its outputs.
pub open spec fn config_fault(streams: Seq<Stream>) -> Option<Seq<char>>
    decreases streams.len(),
{
    if streams.len() == 0 {
        None
    } else if !allowed_task(streams[0].task_type@) {
        Some(stream_fault(streams[0]))
    } else if outputs_fault(streams[0].outputs@, streams[0].id) is Some {
        outputs_fault(streams[0].outputs@, streams[0].id)
    } else {
        config_fault(streams.drop_first())
    }
}

fn validate_outputs(outputs: &Vec<Output>, stream_id: u32) -> (r: Result<(), String>)
    ensures
        r is Ok == outputs_fault(outputs@, stream_id) is None,
        r matches Err(e) ==> outputs_fault(outputs@, stream_id) == Some(e@),
{
    let mut i: usize = 0;
    assert(outputs@.skip(0) =~= outputs@);
    while i < outputs.len()
        invariant
            i <= outputs@.len(),
            outputs_fault(outputs@, stream_id) == outputs_fault(outputs@.skip(i as int), stream_id),
        decreases outputs@.len() - i,
    {
        let output = &outputs[i];
        assert(outputs@.skip(i as int)[0] == *output);
        assert(outputs@.skip(i as int).drop_first() =~= outputs@.skip(i + 1));
        if !is_task_type_allowed(output.task_type.as_str()) {
            let mut e = String::from_str("Output ");
            push_decimal(&mut e, output.id as u64);
            e.append(" of stream ");
            push_decimal(&mut e, stream_id as u64);
            e.append(" has unsupported task_type ");
            e.append(output.task_type.as_str());
            return Err(e);
        }
        i = i + 1;
    }
    Ok(())
}

/// Whether every stream and every output is of a known kind; else the first
/// that is not.
pub fn validate_config(cfg: &Config) -> (r: Result<(), String>)
    ensures
        r is Ok == config_fault(cfg.streams@) is None,
        r matches Err(e) ==> config_fault(cfg.streams@) == Some(e@),
{
    let mut i: usize = 0;
    assert(cfg.streams@.skip(0) =~= cfg.streams@);
    while i < cfg.streams.len()
        invariant
            i <= cfg.streams@.len(),
            config_fault(cfg.streams@) == config_fault(cfg.streams@.skip(i as int)),
        decreases cfg.streams@.len() - i,
    {
        let stream = &cfg.streams[i];
        assert(cfg.streams@.skip(i as int)[0] == *stream);
        assert(cfg.streams@.skip(i as int).drop_first() =~= cfg.streams@.skip(i + 1));
        if !is_task_type_allowed(stream.task_type.as_str()) {
            let mut e = String::from_str("Stream ");
            push_decimal(&mut e, stream.id as u64);
            e.append(" has unsupported task_type ");
            e.append(stream.task_type.as_str());
            return Err(e);
        }
        match validate_outputs(&stream.outputs, stream.id) {
            Ok(_) => {},
            Err(e) => {
                return Err(e);
            },
        }
        i = i + 1;
    }
    Ok(())
}

/// A configuration is accepted exactly if every stream and every output of it
/// is of a known kind.
pub proof fn law_config_accepted(streams: Seq<Stream>)
    ensures
        config_fault(streams) is None <==> forall|i: int|
            0 <= i < streams.len() ==> allowed_task((#[trigger] streams[i]).task_type@) && (forall|
                j: int,
            |
                0 <= j < streams[i].outputs@.len() ==> allowed_task(
                    (#[trigger] streams[i].outputs@[j]).task_type@,
                )),
    decreases streams.len(),
{
    if streams.len() > 0 {
        let rest = streams.drop_first();
        law_config_accepted(rest);
        lemma_outputs_accepted(streams[0].outputs@, streams[0].id);
        assert forall|i: int| 0 <= i < rest.len() implies #[trigger] rest[i] == streams[i + 1] by {}
        if config_fault(streams) is None {
            assert forall|i: int| 0 <= i < streams.len() implies allowed_task(
                (#[trigger] streams[i]).task_type@,
            ) && (forall|j: int|
                0 <= j < streams[i].outputs@.len() ==> allowed_task(
                    (#[trigger] streams[i].outputs@[j]).task_type@,
                )) by {
                if i > 0 {
                    assert(streams[i] == rest[i - 1]);
                }
            }
        }
    }
}

proof fn lemma_outputs_accepted(outputs: Seq<Output>, stream_id: u32)
    ensures
        outputs_fault(outputs, stream_id) is None <==> forall|j: int|
            0 <= j < outputs.len() ==> allowed_task((#[trigger] outputs[j]).task_type@),
    decreases outputs.len(),
{
    if outputs.len() > 0 {
        let rest = outputs.drop_first();
        lemma_outputs_accepted(rest, stream_id);
        assert forall|i: int| 0 <= i < rest.len() implies #[trigger] rest[i] == outputs[i + 1] by {}
        if outputs_fault(outputs, stream_id) is None {
            assert forall|i: int| 0 <= i < outputs.len() implies allowed_task(
                (#[trigger] outputs[i]).task_type@,
            ) by {
                if i > 0 {
                    assert(outputs[i] == rest[i - 1]);
                }
            }
        }
    }
}

// ---- Copies of earlier configurations ----

/// How the files are renamed before the configuration is written anew. File 0 is
/// the configuration itself, the others are copies, the latest first; `kept`
/// tells which of the copies 1 to `kept.len()` exist.
pub open spec fn backup_renames(kept: Seq<bool>) -> Seq<(u32, u32)>
    decreases kept.len(),
{
    if kept.len() == 0 {
        seq![(0u32, 1u32)]
    } else {
        (if kept.last() {
            seq![(kept.len() as u32, (kept.len() + 1) as u32)]
        } else {
            Seq::empty()
        }) + backup_renames(kept.drop_last())
    }
}

/// How the files are renamed, in this order, before the configuration is written
/// anew.
pub fn backup_moves(kept: &Vec<bool>) -> (r: Vec<(u32, u32)>)
    requires
        kept@.len() < u32::MAX,
    ensures
        r@ == backup_renames(kept@),
{
    let mut r: Vec<(u32, u32)> = Vec::new();
    let mut i: usize = kept.len();
    assert(kept@.take(i as int) =~= kept@);
    while i > 0
        invariant
            i <= kept@.len() < u32::MAX,
            r@ + backup_renames(kept@.take(i as int)) == backup_renames(kept@),
        decreases i,
    {
        let ghost before = r@;
        assert(kept@.take(i as int).drop_last() =~= kept@.take(i - 1));
        if kept[i - 1] {
            r.push((i as u32, i as u32 + 1));
        }
        i = i - 1;
        assert(r@ + backup_renames(kept@.take(i as int)) =~= before + backup_renames(
            kept@.take(i + 1),
        ));
    }
    r.push((0, 1));
    assert(kept@.take(0) =~= Seq::<bool>::empty());
    assert(r@ =~= backup_renames(kept@));
    r
}

/// The files after some of them were renamed, each to replace what had the name.
pub open spec fn renamed(files: Map<u32, Seq<char>>, moves: Seq<(u32, u32)>) -> Map<u32, Seq<char>>
    decreases moves.len(),
{
    if moves.len() == 0 {
        files
    } else {
        let (from, to) = moves[0];
        renamed(files.remove(from).insert(to, files[from]), moves.drop_first())
    }
}

/// No copy is lost but the oldest: each file that existed has moved on by one,
/// and the name of the configuration is free.
pub proof fn law_backups_move_on(files: Map<u32, Seq<char>>, kept: Seq<bool>)
    requires
        kept.len() < u32::MAX,
        files.contains_key(0),
        forall|i: int| 0 <= i < kept.len() ==> kept[i] == files.contains_key((i + 1) as u32),
    ensures
        ({
            let after = renamed(files, backup_renames(kept));
            &&& !after.contains_key(0)
            &&& forall|k: u32|
                k <= kept.len() && files.contains_key(k) ==> #[trigger] after.contains_key(
                    (k + 1) as u32,
                ) && after[(k + 1) as u32] == files[k]
        }),
    decreases kept.len(),
{
    let moves = backup_renames(kept);
    if kept.len() == 0 {
        assert(moves.drop_first() =~= Seq::empty());
        assert(renamed(files.remove(0).insert(1, files[0]), moves.drop_first()) == files.remove(
            0,
        ).insert(1, files[0]));
    } else {
        let rest = kept.drop_last();
        let n = kept.len() as u32;
        if kept.last() {
            assert(moves.drop_first() =~= backup_renames(rest));
            let moved = files.remove(n).insert((n + 1) as u32, files[n]);
            law_backups_move_on(moved, rest);
            lemma_renames_below(moved, rest, (n + 1) as u32);
        } else {
            assert(moves =~= backup_renames(rest));
            law_backups_move_on(files, rest);
        }
    }
}

/// What lies above the copies stays.
proof fn lemma_renames_below(files: Map<u32, Seq<char>>, kept: Seq<bool>, k: u32)
    requires
        kept.len() + 1 < k,
        files.contains_key(k),
    ensures
        renamed(files, backup_renames(kept)).contains_key(k),
        renamed(files, backup_renames(kept))[k] == files[k],
    decreases kept.len(),
{
    let moves = backup_renames(kept);
    if kept.len() == 0 {
        assert(moves.drop_first() =~= Seq::empty());
        assert(renamed(files.remove(0).insert(1, files[0]), moves.drop_first()) == files.remove(
            0,
        ).insert(1, files[0]));
    } else {
        let rest = kept.drop_last();
        let n = kept.len() as u32;
        if kept.last() {
            assert(moves.drop_first() =~= backup_renames(rest));
            lemma_renames_below(files.remove(n).insert((n + 1) as u32, files[n]), rest, k);
        } else {
            assert(moves =~= backup_renames(rest));
            lemma_renames_below(files, rest, k);
        }
    }
}

/// The stream of an identifier is the first one of the list that has it; there is none just
/// where no stream has it.
pub proof fn law_first_stream_is_found(streams: Seq<Stream>, id: u32)
    ensures
        match stream_index(streams, id) {
            Some(i) => 0 <= i < streams.len() && streams[i].id == id && forall|k: int|
                0 <= k < i ==> (#[trigger] streams[k]).id != id,
            None => forall|k: int| 0 <= k < streams.len() ==> (#[trigger] streams[k]).id != id,
        },
    decreases streams.len(),
{
    if streams.len() > 0 && streams[0].id != id {
        let rest = streams.drop_first();
        law_first_stream_is_found(rest, id);
        assert forall|k: int| 0 < k < streams.len() implies #[trigger] streams[k] == rest[
            k - 1
        ] by {}
    }
}

} // verus!
