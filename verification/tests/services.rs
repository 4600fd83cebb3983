//! The guide, playlists, datagrams of RTP, and who is let in.

use bytes::BytesMut;
use mymuxer::epg::events::{
    accept_events, group_events_by_service, hash_events, parse_udp_url, sort_by_start,
    udp_target_of, EpgEvent, EpgEvents, EpgNetwork, EpgState, UdpTarget, UdpUrlError, UrlParts,
};
use mymuxer::epg::muxer::{
    build_guide_sections, epg_stall, event_description, present_following_events, EpgMuxer,
    EpgStall,
};
use mymuxer::hls_client::{
    master_url, media_url_of_text, next_piece, segment_result, select_media_url, ChunkQueue,
    HlsAction, HlsPlaylist, HlsSession, Segment, SegmentResult, Variant,
};
use mymuxer::http_router::{
    alias_update, answer_elsewhere, answer_request, is_failure_reported, is_peer_admitted,
    keeps_streaming, AliasUpdate, RouteAnswer,
};
use mymuxer::misc::{is_forbidden, is_log_expired};
use mymuxer::packet::pkt_pid;
use mymuxer::proto::rtp::{RtpError, RtpState};
use mymuxer::psi::time::UtcTime;
use mymuxer::psi::SectionReassembler;

fn at(secs: i64) -> UtcTime {
    UtcTime { secs, nanos: 0 }
}

// ---- Guide ----

fn event(service: u16, id: u16, start: i64, duration: u32) -> EpgEvent {
    EpgEvent {
        original_network_id: 1,
        transport_stream_id: 2,
        service_id: service,
        event_id: id,
        start_time_utc: at(start),
        duration_seconds: duration,
        title: format!("title {}", id),
        subtitle: None,
        description: None,
        language: "ukr".to_string(),
    }
}

fn ids(events: &[EpgEvent]) -> Vec<u16> {
    events.iter().map(|e| e.event_id).collect()
}

fn network(code: &str) -> EpgNetwork {
    EpgNetwork { country_code: code.to_string(), timezone: "Europe/Kyiv".to_string() }
}

fn target(url: &str) -> Result<(u32, u16), UdpUrlError> {
    match parse_udp_url(url) {
        Ok(UdpTarget::V4(address, port)) => Ok((address, port)),
        Ok(UdpTarget::V6(text)) => panic!("an address of version 6: {}", text),
        Err(e) => Err(e),
    }
}

#[test]
fn destinations() {
    assert_eq!(target("udp://239.200.99.1:1234"), Ok((0xEFC8_6301, 1234)));
    assert_eq!(target("not a url"), Err(UdpUrlError::Url));
    assert_eq!(target("http://239.200.99.1:1234"), Err(UdpUrlError::Scheme));
    assert_eq!(target("udp://239.200.99.1"), Err(UdpUrlError::Port));
    assert_eq!(target("udp:path"), Err(UdpUrlError::Host));
    assert_eq!(target("udp://example.com:5"), Err(UdpUrlError::Address));
    assert!(matches!(parse_udp_url("udp://[::1]:5"), Ok(UdpTarget::V6(t)) if t == "[::1]:5"));
    let parts = |host: &str| {
        let host = Some(host.to_string());
        udp_target_of(Some(UrlParts { scheme: "udp".to_string(), host, port: Some(5) }))
    };
    assert!(matches!(parts("1.2.3.4"), Ok(UdpTarget::V4(0x0102_0304, 5))));
    assert!(matches!(parts("h"), Err(UdpUrlError::Address)));
    assert!(matches!(udp_target_of(None), Err(UdpUrlError::Url)));
    assert_eq!(UdpUrlError::Port.message(), "missing UDP port");
    assert_eq!(UdpUrlError::Address.message(), "invalid UDP socket address");
}

#[test]
fn events_by_their_start() {
    let sorted = sort_by_start(vec![
        event(1, 1, 300, 1), event(1, 2, 100, 1), event(1, 3, 300, 1), event(1, 4, 200, 1),
    ]);
    assert_eq!(ids(&sorted), vec![2, 4, 1, 3]);
}

#[test]
fn events_by_their_service() {
    let g = group_events_by_service(vec![
        event(9, 1, 300, 1), event(3, 2, 100, 1), event(9, 3, 200, 1), event(3, 4, 50, 1),
    ]);
    assert_eq!(g.len(), 2);
    assert_eq!((g[0].key, ids(&g[0].events)), ((1, 2, 3), vec![4, 2]));
    assert_eq!((g[1].key, ids(&g[1].events)), ((1, 2, 9), vec![3, 1]));
}

#[test]
fn guide_is_taken_over() {
    let guide = |code: &str| EpgEvents {
        version: 4,
        generated_at_utc: at(77),
        network: network(code),
        events: vec![event(1, 1, 300, 1), event(1, 2, 100, 1)],
    };
    let (state, net, events) = accept_events(guide("UKR")).unwrap();
    assert_eq!((state.current_version, state.generated_at_utc), (4, at(77)));
    assert_eq!(state.last_hash, hash_events(&events));
    assert_eq!(net.timezone, "Europe/Kyiv");
    assert_eq!(ids(&events), vec![2, 1]);
    assert!(accept_events(guide("UA")).is_none());
    let mut other = guide("UKR");
    other.events[0].title.push('!');
    assert_ne!(accept_events(other).unwrap().0.last_hash, state.last_hash);
    assert_eq!(accept_events(guide("UKR")).unwrap().0.last_hash, state.last_hash);
}

#[test]
fn present_and_following() {
    let events = vec![event(1, 1, 100, 50), event(1, 2, 150, 50), event(1, 3, 300, 50)];
    let pick = |now: i64| {
        let (p, f) = present_following_events(&events, &at(now)).unwrap();
        (p.event_id, f.map(|e| e.event_id))
    };
    assert_eq!(pick(149), (1, Some(2)));
    assert_eq!(pick(150), (2, Some(3)));
    assert_eq!(pick(250), (3, None));
    assert_eq!(pick(50), (1, Some(2)));
    assert_eq!(pick(349), (3, None));
    assert_eq!(pick(350), (1, Some(2)));
    assert!(present_following_events(&vec![], &at(0)).is_none());
}

#[test]
fn text_of_an_event() {
    let mut e = event(1, 1, 0, 1);
    assert_eq!(event_description(&e), "");
    e.subtitle = Some("sub".to_string());
    assert_eq!(event_description(&e), "sub");
    e.description = Some(String::new());
    assert_eq!(event_description(&e), "sub");
    e.description = Some("desc".to_string());
    assert_eq!(event_description(&e), "desc");
}

#[test]
fn two_sections_for_each_service() {
    let g = group_events_by_service(vec![event(1, 7, 100, 50), event(2, 8, 100, 50)]);
    let (sections, told) = build_guide_sections(&g, 5, &at(120));
    assert!(told);
    let heads: Vec<(u8, u8, u8)> = sections
        .iter()
        .map(|s| (s.bytes[4], (s.bytes[5] >> 1) & 0x1F, s.bytes[6]))
        .collect();
    assert_eq!(heads, vec![(1, 5, 0), (1, 5, 1), (2, 5, 0), (2, 5, 1)]);
    assert_eq!(sections[1].bytes.len(), 18);
    let (sections, told) = build_guide_sections(&vec![], 5, &at(120));
    assert_eq!((sections.len(), told), (0, false));
}

#[test]
fn guide_in_datagrams() {
    let state = EpgState::new(30, at(1), 11);
    let mut m = EpgMuxer::new(state, 1000);
    assert_eq!(m.tick_ns(), None);
    let g = group_events_by_service(vec![
        event(1, 1, 100, 50), event(2, 2, 100, 50), event(3, 3, 100, 50),
    ]);
    assert!(m.add_round(&at(120), &at(0), 1000, &state, &network("UKR"), &g));
    assert_eq!(m.waiting(), 6);
    assert_eq!(m.tick_ns(), Some(7_000_000_000 / 6));
    assert!(m.next_batch().is_none());
    // Ten seconds later the time is told too, and the events have changed twice.
    let newer = EpgState::new(0, at(2), 12);
    assert!(m.add_round(&at(130), &at(0), 11_000, &newer, &network("UKR"), &g));
    assert_eq!(m.state(), EpgState::new(31, at(2), 12));
    let newest = EpgState::new(0, at(3), 13);
    m.add_round(&at(131), &at(0), 11_001, &newest, &network("UKR"), &g);
    assert_eq!(m.state(), EpgState::new(0, at(3), 13));
    assert_eq!(m.waiting(), 6 + 2 + 6 + 6);
    let batch = m.next_batch().unwrap();
    assert_eq!(batch.len(), 1316);
    let pids: Vec<u16> = batch.chunks(188).map(|p| pkt_pid(p)).collect();
    assert_eq!(pids, vec![0x12, 0x12, 0x12, 0x12, 0x12, 0x12, 0x14]);
    let first = SectionReassembler::new(0x12).push(&batch[..188]).unwrap();
    assert_eq!((first[5] >> 1) & 0x1F, 30);
    assert_eq!(m.waiting(), 13);
    assert!(m.next_batch().is_some());
    assert!(m.next_batch().is_none());
}

#[test]
fn guide_that_stalls() {
    let s = 1_000_000_000u128;
    assert_eq!(epg_stall(20 * s, 0, 0), None);
    assert_eq!(epg_stall(20 * s + 1, 0, 0), Some(EpgStall::Download));
    assert_eq!(epg_stall(0, 21 * s, 19 * s), Some(EpgStall::Send));
    assert_eq!(epg_stall(0, 21 * s, 20 * s), None);
    assert_eq!(epg_stall(0, 21 * s, 3600 * s), None);
    assert_eq!(epg_stall(0, 0, 3600 * s + 1), Some(EpgStall::Process));
    assert_eq!(EpgStall::Send.message(), "EPG sent is too rarely");
}

// ---- Playlists ----

const MASTER: &str = "#EXTM3U\n\
#EXT-X-STREAM-INF:BANDWIDTH=100\nlow/list.m3u8\n\
#EXT-X-STREAM-INF:BANDWIDTH=900\nhigh/list.m3u8\n\
#EXT-X-STREAM-INF:BANDWIDTH=900\nother/list.m3u8\n\
#EXT-X-STREAM-INF:BANDWIDTH=500\nmid/list.m3u8\n";

fn media(names: &[&str]) -> String {
    let mut t = "#EXTM3U\n#EXT-X-VERSION:3\n#EXT-X-TARGETDURATION:6\n".to_string();
    for n in names {
        t.push_str(&format!("#EXTINF:4.5,\n{}\n", n));
    }
    t
}

fn url_of(a: HlsAction) -> Option<String> {
    match a {
        HlsAction::FetchSegment(u) => Some(u),
        _ => None,
    }
}

#[test]
fn best_variant_is_followed() {
    assert_eq!(
        media_url_of_text("http://host/a/master.m3u8", MASTER).as_deref(),
        Some("http://host/a/other/list.m3u8")
    );
    assert_eq!(
        media_url_of_text("http://host/a/list.m3u8", &media(&["1.ts"])).as_deref(),
        Some("http://host/a/list.m3u8")
    );
    assert_eq!(media_url_of_text("http://host/a", "nonsense"), None);
    let v = |b: u64, u: &str| Variant { bandwidth: b, uri: u.to_string() };
    let list = Some(HlsPlaylist::Master(vec![v(3, "x"), v(9, "/y"), v(4, "z")]));
    assert_eq!(select_media_url("http://h/p/q", &list).as_deref(), Some("http://h/y"));
    assert_eq!(select_media_url("http://h/p/q", &Some(HlsPlaylist::Master(vec![]))), None);
    assert_eq!(select_media_url("http://h/p/q", &None), None);
}

#[test]
fn new_segments_are_fetched_in_order() {
    let mut s = HlsSession::new("http://h/live/list.m3u8".to_string());
    assert_eq!(s.media_url(), "http://h/live/list.m3u8");
    let text = media(&["1.ts", "2.ts", "3.ts", "4.ts"]);
    // Of a first list only the last three are fetched.
    let a = s.on_playlist(Some(&text));
    assert_eq!(url_of(a).as_deref(), Some("http://h/live/2.ts"));
    match s.on_segment(SegmentResult::Complete) {
        HlsAction::Pause(bits) => assert_eq!(f32::from_bits(bits), 4.5),
        _ => panic!("no pause"),
    }
    let a = s.on_segment(SegmentResult::Complete);
    assert_eq!(url_of(a).as_deref(), Some("http://h/live/3.ts"));
    assert!(matches!(s.on_segment(SegmentResult::Broken), HlsAction::FetchPlaylist));
    let a = s.on_playlist(Some(&text));
    assert_eq!(url_of(a).as_deref(), Some("http://h/live/3.ts"));
    let a = s.on_segment(SegmentResult::Empty);
    assert_eq!(url_of(a).as_deref(), Some("http://h/live/4.ts"));
    assert!(matches!(s.on_segment(SegmentResult::Complete), HlsAction::Pause(_)));
    match s.on_segment(SegmentResult::Complete) {
        HlsAction::Refresh(target) => assert_eq!(target, 6),
        _ => panic!("no refresh"),
    }
}

#[test]
fn broken_segment_is_given_up() {
    let mut s = HlsSession::new("http://h/list.m3u8".to_string());
    let text = media(&["1.ts"]);
    for _ in 0..4 {
        assert!(url_of(s.on_playlist(Some(&text))).is_some());
        assert!(matches!(s.on_segment(SegmentResult::Broken), HlsAction::FetchPlaylist));
    }
    assert!(matches!(s.on_playlist(Some(&text)), HlsAction::Refresh(6)));
}

#[test]
fn failed_requests_are_tried_again() {
    let mut s = HlsSession::new("http://h/list.m3u8".to_string());
    assert!(matches!(s.on_playlist(None), HlsAction::Retry));
    assert!(matches!(s.on_playlist(Some("")), HlsAction::Retry));
    assert!(matches!(s.on_playlist(Some(MASTER)), HlsAction::Retry));
    assert!(url_of(s.on_playlist(Some(&media(&["1.ts"])))).is_some());
    assert!(matches!(s.on_segment(SegmentResult::Failed), HlsAction::Retry));
    let list = Some(HlsPlaylist::Media(
        vec![Segment { uri: "http://[".to_string(), duration_bits: 0 }],
        0,
    ));
    assert!(matches!(s.on_parsed_playlist(list), HlsAction::Refresh(0)));
}

#[test]
fn first_playlist() {
    assert_eq!(master_url("HTTP://Host/a/../b").as_deref(), Some("http://host/b"));
    assert_eq!(master_url("b"), None);
}

#[test]
fn results_of_segments() {
    assert_eq!(segment_result(false, 5, 5), SegmentResult::Failed);
    assert_eq!(segment_result(true, 0, 0), SegmentResult::Empty);
    assert_eq!(segment_result(true, 5, 4), SegmentResult::Broken);
    assert_eq!(segment_result(true, 5, 5), SegmentResult::Complete);
}

#[test]
fn segments_that_were_seen() {
    let mut q = ChunkQueue::new(2);
    q.push("a");
    q.push("b");
    assert!(q.contains("a") && q.contains("b") && !q.contains("c"));
    q.push("c");
    assert!(!q.contains("a") && q.contains("b") && q.contains("c"));
}

#[test]
fn segment_in_pieces() {
    let mut b = BytesMut::from(&[7u8; 3000][..]);
    let mut sizes = Vec::new();
    while let Some(p) = next_piece(&mut b) {
        sizes.push(p.len());
    }
    assert_eq!(sizes, vec![1316, 1316, 368]);
}

// ---- RTP ----

#[test]
fn packet_of_a_source() {
    let mut s = RtpState::new();
    assert_eq!((s.sequence, s.ssrc), (0, 0));
    s.sequence = 0xFFFF;
    let p = s.pack_as(0x0102_0304, b"xyz", 1_000_000_000);
    assert_eq!(
        &p[..],
        &[
            0x80, 33, 0xFF, 0xFF, 0x01, 0x03, 0x62, 0x94, 0x01, 0x02, 0x03, 0x04, b'x', b'y', b'z',
        ]
    );
    assert_eq!(s, RtpState { sequence: 0, timestamp: 0x0103_6294, ssrc: 0x0102_0304 });
}

#[test]
fn receiver_takes_out_what_the_sender_put_in() {
    let mut sender = RtpState::new();
    let mut receiver = RtpState::new();
    for n in 0..3u8 {
        let p = sender.pack(&[n, 1, 2], n as u128 * 1000);
        assert_eq!(p.len(), 15);
        assert_eq!(&receiver.unpack(&p).unwrap()[..], &[n, 1, 2]);
        assert_eq!(receiver.ssrc, sender.ssrc);
    }
    assert_eq!(sender.sequence, 3);
}

#[test]
fn sources_differ() {
    let mut seen: Vec<u32> = Vec::new();
    for _ in 0..8 {
        let mut s = RtpState::new();
        s.pack(b"", 0);
        seen.push(s.ssrc);
    }
    seen.sort();
    seen.dedup();
    assert!(seen.len() > 1);
}

#[test]
fn refused_packets() {
    let mut s = RtpState { sequence: 0, timestamp: 0, ssrc: 5 };
    let good = [0x80, 33, 0, 0, 0, 0, 0, 0, 0, 0, 0, 5, 9];
    assert_eq!(&s.unpack(&good).unwrap()[..], &[9]);
    let mut with = |i: usize, v: u8| {
        let mut p = good;
        p[i] = v;
        s.unpack(&p).unwrap_err()
    };
    assert_eq!(with(0, 0x40), RtpError::Version);
    assert_eq!(with(0, 0xA0), RtpError::Padding);
    assert_eq!(with(0, 0x90), RtpError::Extension);
    assert_eq!(with(0, 0x81), RtpError::CsrcCount);
    assert_eq!(with(1, 0x80 | 33), RtpError::Marker);
    assert_eq!(with(1, 34), RtpError::PayloadType);
    assert_eq!(with(11, 6), RtpError::Ssrc);
    assert_eq!(s.unpack(&good[..11]), Err(RtpError::Packet));
    assert_eq!(RtpError::Ssrc.message(), "Invalid RTP SSRC");
}

// ---- Access ----

fn nets(list: &[&str]) -> Vec<String> {
    list.iter().map(|n| n.to_string()).collect()
}

#[test]
fn addresses_that_are_let_in() {
    assert_eq!(is_forbidden("10.1.2.3", &vec![]), Some(false));
    assert_eq!(is_forbidden("10.1.2.3", &nets(&["10.1.0.0/16"])), Some(false));
    assert_eq!(is_forbidden("10.2.2.3", &nets(&["10.1.0.0/16"])), Some(true));
    assert_eq!(is_forbidden("10.2.2.3", &nets(&["10.1.0.0/16", "10.2.2.3/32"])), Some(false));
    assert_eq!(is_forbidden("10.2.2.4", &nets(&["10.1.0.0/16", "10.2.2.3/32"])), Some(true));
    assert_eq!(is_forbidden("1.2.3.4", &nets(&["0.0.0.0/0"])), Some(false));
    assert_eq!(is_forbidden("10.1.2.3", &nets(&["10.1.0.0/16", "nonsense"])), Some(false));
    assert_eq!(is_forbidden("10.2.2.3", &nets(&["10.1.0.0/16", "nonsense"])), None);
    assert_eq!(is_forbidden("nonsense", &nets(&["10.1.0.0/16"])), None);
}

#[test]
fn answers_of_a_router() {
    let ask = |ip: &str, v4: bool, key: Option<bool>, alias: &str| {
        answer_request(ip, v4, &nets(&["10.0.0.0/8"]), key, alias, &nets(&["one", "two"]))
    };
    assert_eq!(ask("10.1.1.1", true, Some(true), "two"), Some(RouteAnswer::Stream));
    assert_eq!(ask("10.1.1.1", true, Some(true), "three"), Some(RouteAnswer::Unavailable));
    assert_eq!(ask("10.1.1.1", true, Some(false), "two"), Some(RouteAnswer::Forbidden));
    assert_eq!(ask("10.1.1.1", true, None, "two"), Some(RouteAnswer::Failure));
    assert_eq!(ask("11.1.1.1", true, Some(true), "two"), Some(RouteAnswer::Forbidden));
    assert_eq!(ask("11.1.1.1", true, None, "two"), Some(RouteAnswer::Forbidden));
    assert_eq!(ask("::1", false, Some(true), "two"), Some(RouteAnswer::Forbidden));
    assert_eq!(ask("nonsense", true, Some(true), "two"), None);
    assert_eq!(is_peer_admitted("1.1.1.1", true, &vec![]), Some(true));
    assert_eq!(is_peer_admitted("1.1.1.1", true, &nets(&["nonsense"])), None);
    assert_eq!(answer_elsewhere("/x"), (404, "Not fount /x".to_string()));
    assert_eq!(RouteAnswer::Unavailable.status(), 503);
    assert_eq!(RouteAnswer::Unavailable.text("x").as_deref(), Some("Service unavailable x"));
    assert_eq!(RouteAnswer::Forbidden.text("x").as_deref(), Some("Access denied"));
    assert_eq!(RouteAnswer::Failure.status(), 500);
    assert!(keeps_streaming(Some(true)) && !keeps_streaming(Some(false)) && !keeps_streaming(None));
    assert!(is_failure_reported(60) && !is_failure_reported(61) && is_failure_reported(120));
}

#[test]
fn aliases() {
    let stored = Some("/tmp/a".to_string());
    assert_eq!(alias_update(false, &stored, "/tmp/a"), AliasUpdate::NoRouter);
    assert_eq!(alias_update(true, &stored, "/tmp/a"), AliasUpdate::Unchanged);
    assert_eq!(alias_update(true, &stored, "/tmp/b"), AliasUpdate::Store);
    assert_eq!(alias_update(true, &None, "/tmp/b"), AliasUpdate::Store);
}

#[test]
fn logs_expire() {
    let day = 86_400_000_000_000u128;
    assert!(!is_log_expired(7 * day, 7));
    assert!(is_log_expired(7 * day + 1, 7));
    assert!(!is_log_expired(0, 0));
}
