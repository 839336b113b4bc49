use sim_media_server::pipeline::interleaved_frame;
use sim_media_server::registry::{IpAddress, ServerState, SockAddr, TransportMode};
use sim_media_server::rtsp::{parse_request, parse_transport, Method, ParseError, TransportRequest};
use sim_media_server::sdp::session_description;
use sim_media_server::session::{RtspSession, SessionState};

const PEER: IpAddress = IpAddress::V4([192, 168, 1, 20]);

fn text(b: &[u8]) -> String {
    String::from_utf8(b.to_vec()).unwrap()
}

fn ask(s: &mut RtspSession, reg: &mut ServerState, req: &str) -> String {
    let sdp = session_description(IpAddress::V4([127, 0, 0, 1]), &None, &None);
    text(&s.process_request(req.as_bytes(), reg, 0, 0, &sdp))
}

#[test]
fn options_lists_the_methods() {
    let mut reg = ServerState::new();
    let mut s = RtspSession::new(0xabc, PEER);
    let r = ask(&mut s, &mut reg, "OPTIONS rtsp://h/cam RTSP/1.0\r\nCSeq: 1\r\n\r\n");
    assert!(r.starts_with("RTSP/1.0 200 OK\r\n"));
    assert!(r.contains("CSeq: 1\r\n"));
    let public = r.lines().find(|l| l.starts_with("Public:")).unwrap();
    for m in ["OPTIONS", "DESCRIBE", "SETUP", "PLAY", "TEARDOWN"] {
        assert!(public.contains(m));
    }
    assert_eq!(
        r,
        "RTSP/1.0 200 OK\r\nCSeq: 1\r\nPublic: OPTIONS, DESCRIBE, SETUP, PLAY, PAUSE, TEARDOWN\r\n\r\n"
    );
}

#[test]
fn describe_returns_sdp() {
    let mut reg = ServerState::new();
    let mut s = RtspSession::new(1, PEER);
    let r = ask(&mut s, &mut reg, "DESCRIBE rtsp://h/cam RTSP/1.0\r\nCSeq: 2\r\nAccept: application/sdp\r\n\r\n");
    assert!(r.starts_with("RTSP/1.0 200 OK\r\nCSeq: 2\r\n"));
    assert!(r.contains("Content-Type: application/sdp\r\n"));
    let (head, body) = r.split_once("\r\n\r\n").unwrap();
    assert!(body.contains("m=video 0 RTP/AVP 96"));
    assert!(body.contains("a=rtpmap:96 H264/90000"));
    assert!(body.contains("a=control:track1"));
    assert!(body.contains("o=- 0 0 IN IP4 127.0.0.1\r\n"));
    let len: usize = head
        .lines()
        .find_map(|l| l.strip_prefix("Content-Length: "))
        .unwrap()
        .parse()
        .unwrap();
    assert_eq!(len, body.len());
}

#[test]
fn setup_udp() {
    let mut reg = ServerState::new();
    let mut s = RtspSession::new(0x1234_abcd, PEER);
    let r = ask(
        &mut s,
        &mut reg,
        "SETUP rtsp://h/cam/track1 RTSP/1.0\r\nCSeq: 3\r\nTransport: RTP/AVP;unicast;client_port=5004-5005\r\n\r\n",
    );
    assert!(r.starts_with("RTSP/1.0 200 OK\r\nCSeq: 3\r\n"));
    assert!(r.contains("Session: 000000001234abcd\r\n"));
    assert!(r.contains("Transport: RTP/AVP;unicast;client_port=5004-5005;server_port=6000-6001\r\n"));
    assert_eq!(s.state(), SessionState::Ready);
    let c = reg.get(0x1234_abcd).unwrap();
    assert!(!c.is_playing);
    assert_eq!(
        c.transport,
        TransportMode::Udp {
            rtp_addr: SockAddr { ip: PEER, port: 5004 },
            rtcp_addr: SockAddr { ip: PEER, port: 5005 },
        }
    );
    assert!(reg.get_playing_clients().is_empty());
}

#[test]
fn setup_tcp_interleaved_then_play() {
    let mut reg = ServerState::new();
    let mut s = RtspSession::new(7, PEER);
    let r = ask(
        &mut s,
        &mut reg,
        "SETUP rtsp://h/cam/track1 RTSP/1.0\r\nCSeq: 3\r\nTransport: RTP/AVP/TCP;unicast;interleaved=0-1\r\n\r\n",
    );
    assert!(r.contains("Transport: RTP/AVP/TCP;unicast;interleaved=0-1\r\n"));
    let r = text(&s.process_request(
        b"PLAY rtsp://h/cam RTSP/1.0\r\nCSeq: 4\r\nSession: 0000000000000007\r\n\r\n",
        &mut reg,
        42,
        9000,
        b"",
    ));
    assert!(r.starts_with("RTSP/1.0 200 OK\r\nCSeq: 4\r\nSession: 0000000000000007\r\n"));
    assert!(r.contains("RTP-Info: url=rtsp://h/cam/track1;seq=42;rtptime=9000\r\n"));
    assert_eq!(s.state(), SessionState::Playing);
    let playing = reg.get_playing_clients();
    assert_eq!(playing.len(), 1);
    assert_eq!(playing[0].transport, TransportMode::TcpInterleaved { rtp_channel: 0, rtcp_channel: 1 });
    let frame = interleaved_frame(0, &[1, 2, 3, 4, 5]).unwrap();
    assert_eq!(frame, vec![b'$', 0, 0, 5, 1, 2, 3, 4, 5]);
}

#[test]
fn teardown_leaves_no_trace_in_snapshots() {
    let mut reg = ServerState::new();
    let mut s = RtspSession::new(9, PEER);
    ask(&mut s, &mut reg, "SETUP rtsp://h/cam/track1 RTSP/1.0\r\nCSeq: 1\r\nTransport: RTP/AVP;unicast;client_port=7000\r\n\r\n");
    ask(&mut s, &mut reg, "PLAY rtsp://h/cam RTSP/1.0\r\nCSeq: 2\r\n\r\n");
    assert_eq!(reg.get_udp_clients().len(), 1);
    let r = ask(&mut s, &mut reg, "TEARDOWN rtsp://h/cam RTSP/1.0\r\nCSeq: 3\r\nSession: 0000000000000009\r\n\r\n");
    assert_eq!(r, "RTSP/1.0 200 OK\r\nCSeq: 3\r\nSession: 0000000000000009\r\n\r\n");
    assert!(reg.get_playing_clients().iter().all(|c| c.id != 9));
    assert!(!reg.contains(9));
    assert_eq!(s.state(), SessionState::Teardown);
}

#[test]
fn pause_stops_media() {
    let mut reg = ServerState::new();
    let mut s = RtspSession::new(3, PEER);
    ask(&mut s, &mut reg, "SETUP u RTSP/1.0\r\nCSeq: 1\r\nTransport: RTP/AVP/UDP;unicast;client_port=7000-7001\r\n\r\n");
    ask(&mut s, &mut reg, "PLAY u RTSP/1.0\r\nCSeq: 2\r\n\r\n");
    let r = ask(&mut s, &mut reg, "PAUSE u RTSP/1.0\r\nCSeq: 3\r\n\r\n");
    assert!(r.starts_with("RTSP/1.0 200 OK\r\n"));
    assert_eq!(s.state(), SessionState::Ready);
    assert!(reg.get_playing_clients().is_empty());
}

#[test]
fn error_responses() {
    let mut reg = ServerState::new();
    let mut s = RtspSession::new(3, PEER);
    assert_eq!(ask(&mut s, &mut reg, "OPTIONS u RTSP/1.0\r\n\r\n"), "RTSP/1.0 400 Bad Request\r\nCSeq: 0\r\n\r\n");
    assert_eq!(ask(&mut s, &mut reg, "garbage\r\nCSeq: 5\r\n\r\n"), "RTSP/1.0 400 Bad Request\r\nCSeq: 5\r\n\r\n");
    assert_eq!(
        ask(&mut s, &mut reg, "RECORD u RTSP/1.0\r\nCSeq: 6\r\n\r\n"),
        "RTSP/1.0 405 Method Not Allowed\r\nCSeq: 6\r\n\r\n"
    );
    assert_eq!(
        ask(&mut s, &mut reg, "PLAY u RTSP/1.0\r\nCSeq: 7\r\n\r\n"),
        "RTSP/1.0 455 Method Not Valid in This State\r\nCSeq: 7\r\n\r\n"
    );
    assert_eq!(
        ask(&mut s, &mut reg, "SETUP u RTSP/1.0\r\nCSeq: 8\r\nTransport: RTP/AVP;multicast;client_port=5000-5001\r\n\r\n"),
        "RTSP/1.0 461 Unsupported Transport\r\nCSeq: 8\r\n\r\n"
    );
    assert_eq!(
        ask(&mut s, &mut reg, "SETUP u RTSP/1.0\r\nCSeq: 9\r\n\r\n"),
        "RTSP/1.0 461 Unsupported Transport\r\nCSeq: 9\r\n\r\n"
    );
    assert_eq!(s.state(), SessionState::Init);
    assert!(reg.get_playing_clients().is_empty());
}

#[test]
fn second_session_gets_a_distinct_id() {
    let mut reg = ServerState::new();
    let mut a = RtspSession::new(5, PEER);
    let mut b = RtspSession::new(5, PEER);
    let setup = "SETUP u RTSP/1.0\r\nCSeq: 1\r\nTransport: RTP/AVP;unicast;client_port=7000\r\n\r\n";
    ask(&mut a, &mut reg, setup);
    let r = ask(&mut b, &mut reg, setup);
    assert!(r.contains("Session: 0000000000000006\r\n"));
    assert_eq!(b.session_id(), 6);
    assert!(reg.contains(5) && reg.contains(6));
}

#[test]
fn closing_the_connection_evicts_the_client() {
    let mut reg = ServerState::new();
    let mut s = RtspSession::new(11, PEER);
    ask(&mut s, &mut reg, "SETUP u RTSP/1.0\r\nCSeq: 1\r\nTransport: RTP/AVP/TCP;unicast;interleaved=2-3\r\n\r\n");
    s.close(&mut reg);
    assert!(!reg.contains(11));
}

#[test]
fn request_fields() {
    let r = parse_request(b"SETUP rtsp://h/cam/track1 RTSP/1.0\r\nCSeq:  12 \r\nSession: abc\r\nTransport: RTP/AVP;unicast;client_port=1-2\r\n\r\nCSeq: 99\r\n").unwrap();
    assert_eq!(r.method, Method::Setup);
    assert_eq!(r.uri, b"rtsp://h/cam/track1".to_vec());
    assert_eq!(r.cseq, 12);
    assert_eq!(r.session, Some(b"abc".to_vec()));
    assert_eq!(r.transport, Some(b"RTP/AVP;unicast;client_port=1-2".to_vec()));
    assert_eq!(parse_request(b"PLAY\r\nCSeq: 1\r\n\r\n").unwrap_err(), ParseError::BadRequestLine);
    assert_eq!(parse_request(b"PLAY u RTSP/1.0\r\nCSeq: x1\r\n\r\n").unwrap_err(), ParseError::BadCSeq);
    assert_eq!(parse_request(b"PLAY u RTSP/1.0\r\nCSeq: 4294967296\r\n\r\n").unwrap_err(), ParseError::BadCSeq);
}

#[test]
fn transport_values() {
    assert_eq!(
        parse_transport(b"RTP/AVP;unicast;client_port=5004"),
        Some(TransportRequest::Udp { rtp_port: 5004, rtcp_port: 5005 })
    );
    assert_eq!(
        parse_transport(b"RTP/AVP/TCP; unicast ;interleaved=4"),
        Some(TransportRequest::Tcp { rtp_channel: 4, rtcp_channel: 5 })
    );
    assert_eq!(parse_transport(b"RTP/AVP;unicast;client_port=65535"), None);
    assert_eq!(parse_transport(b"RTP/AVP;client_port=5004-5005"), None);
    assert_eq!(parse_transport(b"RTP/AVP/TCP;unicast;interleaved=0-256"), None);
    assert_eq!(parse_transport(b"RAW/RAW/UDP;unicast;client_port=5004-5005"), None);
    assert_eq!(parse_transport(b"RTP/AVP;unicast"), None);
}

#[test]
fn description_carries_address_and_parameter_sets() {
    let sps = vec![0x67, 0x42, 0x00, 0x1f, 0xab, 0x40, 0x50, 0x1e, 0xc8];
    let pps = vec![0x68, 0xce, 0x30, 0xa4, 0x80];
    let d = text(&session_description(IpAddress::V4([10, 0, 0, 7]), &Some(sps), &Some(pps)));
    assert!(d.contains("o=- 0 0 IN IP4 10.0.0.7\r\n"));
    assert!(d.contains(
        "a=fmtp:96 packetization-mode=1;profile-level-id=42001f;sprop-parameter-sets=Z0IAH6tAUB7I,aM4wpIA=\r\n"
    ));
    let d6 = text(&session_description(IpAddress::V6([0x2001, 0xdb8, 0, 0, 0, 0, 0, 1]), &None, &None));
    assert!(d6.contains("o=- 0 0 IN IP6 2001:0db8:0000:0000:0000:0000:0000:0001\r\n"));
    assert!(d6.contains("a=fmtp:96 packetization-mode=1\r\n"));
    let mut reg = ServerState::new();
    let mut s = RtspSession::new(1, PEER);
    let r = text(&s.process_request(b"DESCRIBE u RTSP/1.0\r\nCSeq: 2\r\n\r\n", &mut reg, 0, 0, d.as_bytes()));
    assert!(r.ends_with(&d));
    assert!(r.contains(&format!("Content-Length: {}\r\n", d.len())));
}

#[test]
fn session_header_is_echoed_before_setup() {
    let mut reg = ServerState::new();
    let mut s = RtspSession::new(1, PEER);
    let r = ask(&mut s, &mut reg, "OPTIONS u RTSP/1.0\r\nCSeq: 1\r\nSession: abc123\r\n\r\n");
    assert!(r.contains("Session: abc123\r\n"));
    let r = ask(&mut s, &mut reg, "PLAY u RTSP/1.0\r\nCSeq: 2\r\nSession: abc123\r\n\r\n");
    assert!(r.starts_with("RTSP/1.0 455 "));
    assert!(r.contains("Session: abc123\r\n"));
    let r = ask(&mut s, &mut reg, "bad\r\nCSeq: 3\r\nSession: abc123\r\n\r\n");
    assert_eq!(r, "RTSP/1.0 400 Bad Request\r\nCSeq: 3\r\nSession: abc123\r\n\r\n");
    let r = ask(&mut s, &mut reg, "TEARDOWN u RTSP/1.0\r\nCSeq: 4\r\nSession: abc123\r\n\r\n");
    assert_eq!(r, "RTSP/1.0 200 OK\r\nCSeq: 4\r\nSession: abc123\r\n\r\n");
}

#[test]
fn session_header_names_the_session_after_setup() {
    let mut reg = ServerState::new();
    let mut s = RtspSession::new(0x2a, PEER);
    ask(&mut s, &mut reg, "SETUP u RTSP/1.0\r\nCSeq: 1\r\nTransport: RTP/AVP;unicast;client_port=7000\r\n\r\n");
    let r = ask(&mut s, &mut reg, "OPTIONS u RTSP/1.0\r\nCSeq: 2\r\nSession: 000000000000002a\r\n\r\n");
    assert!(r.contains("Session: 000000000000002a\r\n"));
    let r = ask(&mut s, &mut reg, "TEARDOWN u RTSP/1.0\r\nCSeq: 3\r\n\r\n");
    assert_eq!(r, "RTSP/1.0 200 OK\r\nCSeq: 3\r\nSession: 000000000000002a\r\n\r\n");
}
