//! Configuration, workers, their supervisor, and figures.

use bytes::{Bytes, BytesMut};
use mymuxer::config::{
    backup_moves, is_task_type_allowed, validate_config, Config, EpgConfig, Mgnt, Output, Stream,
};
use mymuxer::mux::{MuxReport, OutBuffer};
use mymuxer::psi::time::UtcTime;
use mymuxer::status::{
    api_data_cmd, api_data_event, api_data_log, api_data_status, client_url, epg_url, ApiActions,
    ApiConfig, InputStats, OutputStats,
};
use mymuxer::supervisor::{
    answer, answer_unknown, dump_config, dump_failed, dump_of, dump_stopped, event_outcome,
    is_missing_config_reported, is_server_given_up, ApiRequest, Begin, ErrCounter,
    ErrReport, EventResponse, EventsType, Supervisor, SupervisorError,
};
use mymuxer::text::{is_white_space, push_decimal, push_hexadecimal, trim};
use mymuxer::workers::{
    bits_of, cbr_interval_ns, ffmpeg_args, group_of_parts, input_kind, multicast_group, output_kind,
    send_broadcast_chunks, Cmd, GroupError, Helper, InputEvent, InputKind, InputReport,
    InputSession, InputStep, ListenEvent, ListenSession, ListenStep, LogLevels, OutputKind, Report,
    Worker,
};
use std::collections::HashMap;

const NOW: UtcTime = UtcTime { secs: 1_700_000_000, nanos: 0 };

fn output(id: u32, kind: &str) -> Output {
    Output {
        id,
        name: format!("out{}", id),
        output_url: "239.1.1.1:1234".to_string(),
        task_type: kind.to_string(),
        biss_key: "00".to_string(),
        ca_flag: 0,
        pkt_size: 1316,
        cbr: 0,
        proxy: false,
        allow: vec![],
        programs: vec![],
        err_count: 4,
    }
}

fn stream(id: u32, kind: &str, outputs: Vec<Output>) -> Stream {
    Stream {
        id,
        remote_url: "udp://239.0.0.1:1".to_string(),
        biss_key: String::new(),
        name: "in".to_string(),
        task_type: kind.to_string(),
        outputs,
        err_count: 0,
    }
}

fn config(streams: Vec<Stream>) -> Config {
    Config {
        mgnt: Mgnt {
            hash: String::new(),
            last_update: String::new(),
            admin_url: String::new(),
            allow: vec!["10.0.0.0/8".to_string()],
        },
        epg_configs: vec![
            EpgConfig { id: 4, url: "udp://239.1.1.9:1".to_string() },
            EpgConfig { id: 6, url: "udp://239.1.1.9:2".to_string() },
        ],
        streams,
        http_routers: vec![],
    }
}

// ---- Texts ----

#[test]
fn texts() {
    assert_eq!(trim("\t a b\u{3000}\n"), "a b");
    assert_eq!(trim("  "), "");
    let mut t = "n=".to_string();
    push_decimal(&mut t, 0);
    push_decimal(&mut t, u64::MAX);
    assert_eq!(t, "n=018446744073709551615");
    let mut t = "0x".to_string();
    push_hexadecimal(&mut t, 0x1F_ABCD);
    assert_eq!(t, "0x1fabcd");
    for c in 0..=0x10_FFFFu32 {
        if let Some(c) = char::from_u32(c) {
            assert_eq!(is_white_space(c), c.is_whitespace());
        }
    }
}

// ---- Configuration ----

#[test]
fn kinds_that_are_allowed() {
    for kind in ["udp", "rtp", "http", "ffmpeg", "hls", "unix"] {
        assert!(is_task_type_allowed(kind));
        assert!(input_kind(kind).is_some());
    }
    assert!(!is_task_type_allowed("UDP"));
    assert!(!is_task_type_allowed(""));
}

#[test]
fn faults_of_a_configuration() {
    let good = config(vec![stream(1, "udp", vec![output(2, "http")])]);
    assert_eq!(validate_config(&good), Ok(()));
    assert_eq!(good.get_stream(1).unwrap().id, 1);
    assert!(good.get_stream(2).is_none());
    let bad = config(vec![stream(1, "udp", vec![output(2, "tcp")]), stream(3, "x", vec![])]);
    assert_eq!(
        validate_config(&bad),
        Err("Output 2 of stream 1 has unsupported task_type tcp".to_string())
    );
    let bad = config(vec![stream(3, "x", vec![output(2, "tcp")])]);
    assert_eq!(
        validate_config(&bad),
        Err("Stream 3 has unsupported task_type x".to_string())
    );
}

#[test]
fn copies_move_on() {
    assert_eq!(backup_moves(&vec![false; 4]), vec![(0, 1)]);
    assert_eq!(backup_moves(&vec![true, false, true, true]), vec![(4, 5), (3, 4), (1, 2), (0, 1)]);
    let mut files: HashMap<u32, &str> =
        HashMap::from([(0, "new"), (1, "a"), (2, "b"), (3, "c"), (4, "d"), (5, "e")]);
    for (from, to) in backup_moves(&vec![true; 4]) {
        let f = files.remove(&from).unwrap();
        files.insert(to, f);
    }
    assert_eq!(
        files,
        HashMap::from([(1, "new"), (2, "a"), (3, "b"), (4, "c"), (5, "d")])
    );
}

// ---- Workers ----

#[test]
fn chunks_in_pieces() {
    let sizes = |n: usize| -> Vec<usize> {
        send_broadcast_chunks(Bytes::from(vec![1u8; n])).iter().map(|p| p.len()).collect()
    };
    assert_eq!(sizes(0), vec![0]);
    assert_eq!(sizes(12_032), vec![12_032]);
    assert_eq!(sizes(12_033), vec![12_032, 1]);
    assert_eq!(sizes(24_064), vec![12_032, 12_032]);
    let data: Vec<u8> = (0..30_000u32).map(|i| (i % 251) as u8).collect();
    let joined: Vec<u8> = send_broadcast_chunks(Bytes::from(data.clone()))
        .iter()
        .flat_map(|p| p.to_vec())
        .collect();
    assert_eq!(joined, data);
}

#[test]
fn kinds_of_inputs_and_outputs() {
    assert_eq!(input_kind("hls"), Some(InputKind::Hls));
    assert_eq!(input_kind("unix"), Some(InputKind::Unix));
    assert_eq!(input_kind("tcp"), None);
    assert_eq!(output_kind("rtp"), Some(OutputKind::Rtp));
    assert_eq!(output_kind("unix"), Some(OutputKind::Unix));
    assert_eq!(output_kind("hls"), None);
}

#[test]
fn times_between_datagrams() {
    assert_eq!(cbr_interval_ns(1316, 5_000_000), Some(2_105_600));
    assert_eq!(cbr_interval_ns(188, 1), Some(1_504_000_000_000));
    assert_eq!(cbr_interval_ns(188, 0), None);
    assert_eq!(bits_of(125), 1000);
}

#[test]
fn groups_of_inputs() {
    assert_eq!(multicast_group("udp://239.1.2.3:1234"), Ok((0xEF01_0203, 1234)));
    assert_eq!(multicast_group("rtp://239.1.2.3:5/x"), Ok((0xEF01_0203, 5)));
    assert_eq!(multicast_group("239.1.2.3:1234"), Err(GroupError::Url));
    assert_eq!(multicast_group("udp://239.1.2.3"), Err(GroupError::Url));
    assert_eq!(multicast_group("udp:239.1.2.3"), Err(GroupError::Url));
    assert_eq!(multicast_group("udp://host:5"), Err(GroupError::Address));
    assert_eq!(multicast_group("udp://[::1]:5"), Err(GroupError::Address));
    assert_eq!(group_of_parts(None), Err(GroupError::Url));
    assert_eq!(GroupError::Url.message("x"), "Invalid url x");
    assert_eq!(GroupError::Address.message("x"), "invalid IPv4 address syntax");
}

#[test]
fn second_failure_ends_listening() {
    let mut s = ListenSession::new(OutputKind::Unix);
    assert_eq!(s.on_event(ListenEvent::Failed), ListenStep::Report);
    assert_eq!(s.on_event(ListenEvent::Accepted), ListenStep::Serve);
    assert_eq!(s.on_event(ListenEvent::Failed), ListenStep::Report);
    assert_eq!(s.on_event(ListenEvent::Failed), ListenStep::End { dirty: true });
    assert_eq!(s.on_event(ListenEvent::Cancelled), ListenStep::End { dirty: false });
    let mut s = ListenSession::new(OutputKind::Http);
    assert_eq!(s.on_event(ListenEvent::Cancelled), ListenStep::End { dirty: true });
}

#[test]
fn reports_of_the_handler_are_delivered() {
    let mut h = Helper::new(5);
    h.set_api_config();
    h.deliver(&MuxReport::PatChanged, "");
    h.deliver(&MuxReport::PatFound(vec![]), "[]");
    h.deliver(&MuxReport::Command(Cmd::MarkDirty), "");
    h.send_cmd(Cmd::UnMarkDirty);
    h.send_log("m", LogLevels::Info);
    let r = h.take_reports();
    assert!(matches!(&r[0], Report::Line(t) if t == "[main]: PAT changed"));
    assert!(matches!(&r[1], Report::Log { level: LogLevels::Warn, message, .. }
        if message == "PAT changed"));
    assert!(matches!(&r[2], Report::Line(t) if t == "[main]: PAT found: []"));
    assert!(matches!(&r[3], Report::Command { cmd: Cmd::MarkDirty, .. }));
    assert!(matches!(&r[4], Report::Command { cmd: Cmd::UnMarkDirty, .. }));
    assert!(matches!(&r[6], Report::Log { level: LogLevels::Info, .. }));
    assert_eq!(r.len(), 7);
}

#[test]
fn input_that_is_lost() {
    let mut s = InputSession::new(InputKind::Http);
    let lost = |s: &mut InputSession, e: InputEvent| s.on_event(e);
    assert_eq!(lost(&mut s, InputEvent::Unreachable), (InputReport::Event, InputStep::Pause));
    assert_eq!(lost(&mut s, InputEvent::Refused), (InputReport::Nothing, InputStep::Reconnect));
    for _ in 0..18 {
        assert_eq!(lost(&mut s, InputEvent::Closed), (InputReport::Nothing, InputStep::Pause));
    }
    assert_eq!(lost(&mut s, InputEvent::Closed), (InputReport::Count(20), InputStep::Pause));
    assert_eq!(lost(&mut s, InputEvent::Chunk(1)), (InputReport::Nothing, InputStep::Read));
    assert_eq!(lost(&mut s, InputEvent::Closed), (InputReport::Event, InputStep::Pause));
    assert_eq!(lost(&mut s, InputEvent::Silent), (InputReport::Event, InputStep::Pause));
    let mut s = InputSession::new(InputKind::Udp);
    assert_eq!(lost(&mut s, InputEvent::Unreachable).0, InputReport::Event);
    lost(&mut s, InputEvent::Chunk(1));
    assert_eq!(lost(&mut s, InputEvent::Unreachable).0, InputReport::Nothing);
    assert_eq!(lost(&mut s, InputEvent::Broken), (InputReport::Event, InputStep::Pause));
    let mut s = InputSession::new(InputKind::Unix);
    assert_eq!(lost(&mut s, InputEvent::Closed), (InputReport::Event, InputStep::Stop));
    for kind in [InputKind::Unix, InputKind::Ffmpeg] {
        let mut s = InputSession::new(kind);
        let before = s;
        assert_eq!(lost(&mut s, InputEvent::Unreachable), (InputReport::Nothing, InputStep::Stop));
        assert_eq!(s, before);
    }
    let mut s = InputSession::new(InputKind::Ffmpeg);
    assert_eq!(lost(&mut s, InputEvent::Closed), (InputReport::Event, InputStep::Pause));
}

#[test]
fn bitrate_of_an_input() {
    let mut s = InputSession::new(InputKind::Hls);
    s.on_event(InputEvent::Chunk(100));
    s.on_event(InputEvent::Chunk(25));
    assert_eq!(s.on_event(InputEvent::Second), (InputReport::Bitrate(1000), InputStep::Read));
    assert_eq!(s.on_event(InputEvent::Second), (InputReport::Bitrate(0), InputStep::Read));
}

#[test]
fn arguments_of_the_transcoder() {
    assert_eq!(
        ffmpeg_args("  -re -i\tfile.mp4\n-c copy "),
        vec!["-re", "-i", "file.mp4", "-c", "copy", "-f", "mpegts", "pipe:1"]
    );
    assert_eq!(ffmpeg_args(""), vec!["-f", "mpegts", "pipe:1"]);
}

#[test]
fn outputs_are_started_again() {
    let outputs = vec![output(1, "udp"), output(2, "tcp"), output(3, "http")];
    let (mut w, started) = Worker::new(stream(7, "udp", outputs));
    assert_eq!(started, vec![0, 2]);
    assert!(w.is_output_running(1) && !w.is_output_running(2) && w.is_output_running(3));
    assert_eq!(w.monitor(false, &vec![]), Some(vec![]));
    assert_eq!(w.monitor(false, &vec![3]), Some(vec![2]));
    assert!(w.stop_output(1));
    assert!(!w.stop_output(1));
    assert_eq!(w.monitor(false, &vec![]), Some(vec![0]));
    assert_eq!(w.monitor(true, &vec![]), None);
    assert!(!w.is_output_running(1) && !w.is_output_running(3));
    assert_eq!(w.config().id, 7);
}

#[test]
fn every_output_of_a_new_worker_starts() {
    let outputs = vec![output(4, "udp"), output(4, "http"), output(5, "tcp"), output(4, "rtp")];
    let (mut w, started) = Worker::new(stream(7, "udp", outputs));
    assert_eq!(started, vec![0, 1, 3]);
    assert!(w.is_output_running(4) && !w.is_output_running(5));
    assert_eq!(w.monitor(false, &vec![]), Some(vec![]));
    assert_eq!(w.monitor(false, &vec![4]), Some(vec![0]));
}

#[test]
fn reports_in_order() {
    let mut h = Helper::new(5);
    h.log_warn("unheard");
    h.cmd_mark_dirty();
    assert_eq!(h.take_reports().len(), 1);
    h.set_output_id(9);
    h.set_namespace("Output");
    h.set_api_config();
    h.log("line");
    h.log_play("go");
    h.cmd_unmark_dirty();
    let r = h.take_reports();
    assert_eq!(r.len(), 4);
    assert!(matches!(&r[0], Report::Line(t) if t == "[Output]: line"));
    assert!(matches!(&r[1], Report::Line(t) if t == "[Output]: go"));
    assert!(matches!(
        &r[2],
        Report::Log { worker_id: 5, output_id: 9, message, level: LogLevels::Play }
            if message == "go"
    ));
    assert!(matches!(
        &r[3],
        Report::Command { worker_id: 5, output_id: 9, cmd: Cmd::UnMarkDirty }
    ));
    assert_eq!(h.take_reports().len(), 0);
    h.log_info("i");
    h.log_pause("p");
    assert_eq!(h.take_reports().len(), 4);
    let words: Vec<&str> = [LogLevels::Info, LogLevels::Warn, LogLevels::Pause, LogLevels::Play]
        .iter()
        .map(|l| l.as_str())
        .collect();
    assert_eq!(words, vec!["0", "1", "10", "11"]);
}

// ---- Supervisor ----

#[test]
fn worker_is_started_once() {
    let mut s = Supervisor::new();
    assert_eq!(s.begin_start(1), Begin::Go);
    assert_eq!(s.begin_start(1), Begin::Busy);
    assert_eq!(s.begin_restart(1), Ok(Begin::Busy));
    s.end_start(1, true);
    assert!(s.is_running(1));
    assert_eq!(s.begin_start(1), Begin::Done);
    assert_eq!(s.begin_stop(1), Begin::Go);
    assert!(!s.is_running(1));
    assert_eq!(s.begin_stop(1), Begin::Done);
    assert_eq!(s.begin_start(1), Begin::Busy);
    s.end_stop(1);
    assert_eq!(s.begin_start(1), Begin::Go);
    s.end_start(1, false);
    assert!(!s.is_running(1));
    assert_eq!(s.begin_restart(1), Err(SupervisorError::WorkerNotFound(1)));
    s.begin_start(1);
    s.end_start(1, true);
    assert_eq!(s.begin_restart(1), Ok(Begin::Go));
    assert_eq!(s.begin_stop(1), Begin::Done);
    s.end_start(1, true);
    s.forget_worker(1);
    assert!(!s.is_running(1));
}

#[test]
fn probe_of_a_worker() {
    let mut s = Supervisor::new();
    assert_eq!(s.begin_probe(1), Err(SupervisorError::ProbeWorkerNotFound(1)));
    s.begin_start(1);
    s.end_start(1, true);
    assert_eq!(s.begin_probe(1), Ok(()));
    assert_eq!(s.begin_probe(1), Err(SupervisorError::ProbeInProcess(1)));
    s.end_probe(1);
    assert_eq!(s.begin_probe(1), Ok(()));
}

#[test]
fn configuration_is_loaded_and_saved() {
    let mut s = Supervisor::new();
    assert_eq!(s.get_config(), "");
    assert_eq!(s.source_to_save(), Err(SupervisorError::ConfigNotLoaded));
    assert_eq!(s.stream_ids(), None);
    assert_eq!(s.stream_to_start(1).err(), Some(SupervisorError::ConfigNotFound));
    assert_eq!(s.is_forbidden("1.2.3.4"), Some(false));
    assert!(s.config().is_none());
    assert!(s.load("bad".to_string(), config(vec![stream(1, "x", vec![])])).is_err());
    assert_eq!(s.get_config(), "");
    let good = config(vec![stream(5, "udp", vec![]), stream(2, "udp", vec![])]);
    assert_eq!(s.load("good".to_string(), good), Ok(()));
    assert_eq!(s.get_config(), "good");
    assert_eq!(s.source_to_save(), Ok("good".to_string()));
    assert_eq!(s.stream_ids(), Some(vec![5, 2]));
    assert_eq!(s.stream_to_start(2).unwrap().id, 2);
    assert_eq!(s.stream_to_start(1).err(), Some(SupervisorError::StreamNotFound(1)));
    assert_eq!(s.is_forbidden("1.2.3.4"), Some(true));
    assert_eq!(s.is_forbidden("10.2.3.4"), Some(false));
    assert!(!s.autosave_due(1_000_000));
    s.mark_dirty(100);
    assert!(!s.autosave_due(1000));
    assert!(s.autosave_due(1001));
    s.saved();
    assert!(!s.autosave_due(1_000_000));
}

#[test]
fn guides_and_routers() {
    let mut s = Supervisor::new();
    assert_eq!(s.begin_epg(6), Err(SupervisorError::ConfigNotLoaded));
    assert_eq!(s.load("c".to_string(), config(vec![])), Ok(()));
    assert_eq!(s.begin_epg(5), Err(SupervisorError::EpgConfigNotFound(5)));
    assert_eq!(s.begin_epg(6), Ok(1));
    assert_eq!(s.begin_epg(6), Err(SupervisorError::EpgRunning(6)));
    assert_eq!(s.end_epg(6), Ok(()));
    assert_eq!(s.end_epg(6), Err(SupervisorError::EpgNotRunning));
    assert!(s.begin_router(1));
    assert!(!s.begin_router(1));
    assert!(s.is_router_running(1));
    assert_eq!(s.end_router(1), Ok(()));
    assert_eq!(s.end_router(1), Err(SupervisorError::RouterNotRunning(1)));
    s.begin_dump(8);
    assert_eq!(s.end_dump(8), Ok(()));
    assert_eq!(s.end_dump(8), Err(SupervisorError::DumpNotFound(8)));
}

#[test]
fn dumps() {
    let s = stream(7, "udp", vec![output(1, "rtp"), output(2, "unix")]);
    let d = dump_config(&s, 1).unwrap();
    assert_eq!((d.id, d.remote_url.as_str()), (7, "rtp://239.1.1.1:1234"));
    assert_eq!((d.name.as_str(), d.task_type.as_str()), ("out1_dump", "rtp"));
    assert_eq!((d.biss_key.as_str(), d.outputs.len(), d.err_count), ("00", 0, 0));
    assert!(dump_config(&s, 2).is_none());
    assert!(dump_config(&s, 3).is_none());
    assert!(dump_of(Some(&s), 1).is_ok());
    assert_eq!(dump_of(Some(&s), 3).err(), Some(SupervisorError::OutputNotFound(3)));
    assert_eq!(dump_of(None, 1).err(), Some(SupervisorError::OutputNotFound(1)));
    assert_eq!(
        dump_failed(3, &SupervisorError::OutputNotFound(3)),
        "Failed to create dump for p3: Output id 3 not found"
    );
    assert_eq!(dump_stopped(3, &Ok(())), (200, "Dump for p3 stopped".to_string()));
    assert_eq!(
        dump_stopped(3, &Err(SupervisorError::DumpNotFound(3))),
        (404, "Failed to stop dump for p3: Dump with id 3 not found".to_string())
    );
}

#[test]
fn answers() {
    let text = |r: ApiRequest| {
        let a = answer(r);
        assert!(a.success);
        (a.message, a.id)
    };
    assert_eq!(text(ApiRequest::Root), ("myMuxer ready!".to_string(), 0));
    assert_eq!(text(ApiRequest::Probe(3)), ("Worker with id 3 probing started".to_string(), 3));
    assert_eq!(text(ApiRequest::Load), ("Config loading".to_string(), 0));
    assert_eq!(text(ApiRequest::Save), ("Config saving progress".to_string(), 0));
    assert_eq!(text(ApiRequest::StartAll), ("All workers starting".to_string(), 0));
    assert_eq!(text(ApiRequest::StopAll), ("All workers stopping".to_string(), 0));
    assert_eq!(text(ApiRequest::Start(12)), ("Worker with id 12 started".to_string(), 12));
    assert_eq!(text(ApiRequest::Stop(12)), ("Worker with id 12 stopped".to_string(), 12));
    let a = answer_unknown("/x");
    assert_eq!((a.success, a.message.as_str(), a.id), (false, "No route for uri=/x", 0));
    let mut s = Supervisor::new();
    assert_eq!(s.refusal("1.2.3.4", "1.2.3.4:5", true), Some(None));
    assert_eq!(s.load("c".to_string(), config(vec![])), Ok(()));
    let denied = |t: &str| Some(Some(t.to_string()));
    assert_eq!(s.refusal("1.2.3.4", "1.2.3.4:5", true), denied("Access denied 1.2.3.4:5"));
    assert_eq!(s.refusal("10.2.3.4", "10.2.3.4:5", true), Some(None));
    assert_eq!(s.refusal("::1", "[::1]:5", false), denied("Access denied"));
    assert_eq!(s.refusal("nonsense", "", true), None);
}

#[test]
fn events() {
    let e = event_outcome(EventsType::OnStartStream, 4, None);
    assert_eq!(
        (e.event.as_str(), e.success, e.message.as_str()),
        ("on_start_stream", true, "s4 Stream started successfully")
    );
    let e = event_outcome(EventsType::OnStopStream, 4, Some("why"));
    assert_eq!(
        (e.event.as_str(), e.success, e.message.as_str()),
        ("on_stop_stream", false, "s4 Failed to stop the stream; why")
    );
    let e = event_outcome(EventsType::OnProbe, 4, Some("why"));
    assert_eq!(e.message, "s4 Failed to probe for stream: why");
    let e = event_outcome(EventsType::OnLoadConfig, 0, Some("why"));
    assert_eq!(e.message, "Error in load config: why");
    let e = event_outcome(EventsType::OnSaveConfig, 0, None);
    assert_eq!(e.message, "Config saved successfully");
    let e = event_outcome(EventsType::OnError, 0, Some("why"));
    assert_eq!((e.event.as_str(), e.message.as_str()), ("on_error", "why"));
    let mut e = EventResponse::new(EventsType::OnProbe);
    e.failed("no".to_string());
    e.result("{}".to_string());
    assert_eq!((e.success, e.message.as_str(), e.result.as_deref()), (false, "no", Some("{}")));
    e.success("yes".to_string());
    assert!(e.success);
    assert_eq!(EventsType::OnStopOutput.as_str(), "on_stop_output");
    assert_eq!(
        SupervisorError::EpgRunning(2).message(),
        "EPG already running for stream with id 2"
    );
    assert_eq!(SupervisorError::RouterNotFound(2).message(), "Http router with id 2 not found");
}

#[test]
fn repeated_errors_are_counted() {
    let mut c = ErrCounter::new(20);
    assert_eq!(c.per_min, 3);
    let said: Vec<ErrReport> = (0..7).map(|_| c.on_error()).collect();
    assert_eq!(
        said,
        vec![
            ErrReport::Error,
            ErrReport::Nothing,
            ErrReport::Nothing,
            ErrReport::Count(3),
            ErrReport::Nothing,
            ErrReport::Nothing,
            ErrReport::Count(3),
        ]
    );
    assert!(is_missing_config_reported(0, 12) && is_missing_config_reported(12, 12));
    assert!(!is_missing_config_reported(11, 12));
    assert!(is_server_given_up(5) && !is_server_given_up(4));
}

// ---- Figures ----

#[test]
fn figures_of_an_input() {
    let mut s = InputStats::new(&NOW);
    s.update_bitrate(500);
    s.update_bitrate(300);
    assert_eq!((s.start_timestamp, s.bitrate, s.max_bitrate), (NOW.secs, 300, 500));
}

#[test]
fn figures_of_an_output() {
    let mut s = OutputStats::new(&NOW);
    let mut n = 10usize;
    s.update_bitrate_psi(&mut n);
    assert_eq!((s.bitrate_psi, n), (10 * 188 * 8, 0));
    s.update_bitrate(77);
    s.update_fps(2500);
    s.update_dts_drift(0x101, -5);
    s.update_pcr_drift(6);
    s.update_dirty(true);
    s.update_in_buffer(&BytesMut::from(&[0u8; 9][..]));
    s.update_cc(&HashMap::from([(1u16, 2usize)]));
    s.update_cc(&HashMap::from([(3u16, 4usize)]));
    s.update_v_buffer(&OutBuffer::new(1));
    s.update_ready_time(&NOW);
    assert_eq!((s.bitrate, s.fps, s.pcr_drift, s.dirty, s.in_buffer_len), (77, 2500, 6, 1, 9));
    assert_eq!(s.dts_drift.get(&0x101), Some(&-5));
    assert_eq!(s.cc, HashMap::from([(1, 2), (3, 4)]));
    assert_eq!(s.last_ready_timestamp, NOW.secs);
}

// ---- Messages ----

#[test]
fn messages_to_the_administration() {
    let c = ApiConfig {
        admin_url: "http://admin:80/x?q=1".to_string(),
        hash: "a\"b".to_string(),
        last_update: "2024".to_string(),
    };
    assert_eq!(
        api_data_status(&c, "now", "[1]"),
        "{\"action\":\"status\",\"data\":[1],\"hash\":\"a\\\"b\",\"last_update\":\"2024\",\
\"time\":\"now\"}"
    );
    let v: serde_json::Value = serde_json::from_str(&api_data_event(&c, "t\n", "null")).unwrap();
    assert_eq!(v["action"], "event");
    assert_eq!(v["hash"], "a\"b");
    assert_eq!(v["time"], "t\n");
    assert!(api_data_log(&c, "", "1").contains("\"action\":\"log\""));
    assert!(api_data_cmd(&c, "", "1").contains("\"action\":\"cmd\""));
    assert_eq!(ApiActions::Cmd.as_str(), "cmd");
    assert_eq!(client_url(&c.admin_url).as_deref(), Some("http://admin/api/client?q=1"));
    assert_eq!(epg_url("http://admin", 7).as_deref(), Some("http://admin/api/epg/id/7"));
    assert_eq!(epg_url("admin", 7), None);
}

#[test]
fn contents_of_messages() {
    let mut h = Helper::new(5);
    h.set_api_config();
    h.log_warn("a\tb");
    h.cmd_mark_dirty();
    let data: Vec<Option<String>> = h.take_reports().iter().map(|r| r.data()).collect();
    assert_eq!(data[0], None);
    assert_eq!(
        data[1].as_deref(),
        Some("{\"level\":\"1\",\"message\":\"a\\tb\",\"output_id\":0,\"worker_id\":5}")
    );
    assert_eq!(
        data[2].as_deref(),
        Some("{\"cmd\":\"mark_dirty\",\"output_id\":0,\"worker_id\":5}")
    );
    let mut e = event_outcome(EventsType::OnProbe, 1, None);
    assert_eq!(
        e.data(),
        "{\"event\":\"on_probe\",\"message\":\"s1 Probe for stream successfully\",\
\"result\":null,\"success\":true}"
    );
    e.result("[2]".to_string());
    assert!(e.data().contains("\"result\":[2]"));
}
