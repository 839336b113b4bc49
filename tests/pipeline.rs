use sim_media_server::pipeline::{
    clients_to_report, interleaved_frame, next_restart_delay, pacing_delay_micros, MediaPipeline,
};
use sim_media_server::registry::{ClientInfo, IpAddress, ServerState, SockAddr, TransportMode};

fn nalu(header: u8, len: usize) -> Vec<u8> {
    let mut v = vec![header];
    v.resize(len, 0xab);
    v
}

#[test]
fn idr_is_preceded_by_cached_parameter_sets() {
    let mut p = MediaPipeline::new(0x1234_5678, 3000);
    let sps = p.process_nalu(&nalu(0x67, 10));
    let pps = p.process_nalu(&nalu(0x68, 4));
    assert_eq!(sps.len(), 1);
    assert_eq!(pps.len(), 1);
    assert!(!sps[0].header.marker && !pps[0].header.marker);
    assert_eq!(p.timestamp(), 0);
    let idr = p.process_nalu(&nalu(0x65, 3000));
    assert_eq!(idr.len(), 5);
    assert_eq!(idr[0].payload, nalu(0x67, 10));
    assert_eq!(idr[1].payload, nalu(0x68, 4));
    let markers: Vec<bool> = idr.iter().map(|k| k.header.marker).collect();
    assert_eq!(markers, vec![false, false, false, false, true]);
    assert!(idr.iter().all(|k| k.header.timestamp == 0));
    let seqs: Vec<u16> = idr.iter().map(|k| k.header.sequence).collect();
    assert_eq!(seqs, vec![2, 3, 4, 5, 6]);
    assert_eq!(p.timestamp(), 3000);
    let next = p.process_nalu(&nalu(0x41, 50));
    assert_eq!(next[0].header.timestamp, 3000);
    assert!(next[0].header.marker);
    assert_eq!(p.timestamp(), 6000);
}

#[test]
fn one_marker_per_access_unit() {
    let mut p = MediaPipeline::new(1, 3000);
    let mut all = Vec::new();
    for n in [nalu(0x06, 8), nalu(0x09, 2), nalu(0x41, 4000)] {
        all.extend(p.process_nalu(&n));
    }
    assert_eq!(all.iter().filter(|k| k.header.marker).count(), 1);
    assert!(all.last().unwrap().header.marker);
    assert!(all.iter().all(|k| k.header.timestamp == 0));
}

#[test]
fn octet_count_is_payload_only() {
    let mut p = MediaPipeline::new(1, 3000);
    let a = p.process_nalu(&nalu(0x41, 100));
    let b = p.process_nalu(&nalu(0x41, 3000));
    let total: usize = a.iter().chain(b.iter()).map(|k| k.payload.len()).sum();
    assert_eq!(p.packet_count() as usize, a.len() + b.len());
    assert_eq!(p.octet_count() as usize, total);
    let sr = p.sender_report();
    assert_eq!(sr.len(), 28);
    assert_eq!(&sr[16..20], &6000u32.to_be_bytes());
    assert_eq!(&sr[20..24], &(p.packet_count()).to_be_bytes());
    assert_eq!(&sr[24..28], &(total as u32).to_be_bytes());
}

#[test]
fn empty_nalu_sends_nothing() {
    let mut p = MediaPipeline::new(1, 3000);
    assert!(p.process_nalu(&[]).is_empty());
    assert_eq!(p.sequence(), 0);
    assert_eq!(p.timestamp(), 0);
}

#[test]
fn interleaved_length_limit() {
    assert!(interleaved_frame(1, &vec![0u8; 65536]).is_none());
    let f = interleaved_frame(1, &vec![7u8; 65535]).unwrap();
    assert_eq!(&f[..4], &[b'$', 1, 0xff, 0xff]);
    assert_eq!(f.len(), 65539);
}

#[test]
fn pacing() {
    assert_eq!(pacing_delay_micros(10_000, 1, 33_333), 23_333);
    assert_eq!(pacing_delay_micros(50_000, 1, 33_333), 0);
    assert_eq!(pacing_delay_micros(0, u64::MAX, 2), u64::MAX);
}

#[test]
fn registry_operations() {
    let mut reg = ServerState::new();
    let ip = IpAddress::V6([0, 0, 0, 0, 0, 0, 0, 1]);
    let udp = TransportMode::Udp {
        rtp_addr: SockAddr { ip, port: 5000 },
        rtcp_addr: SockAddr { ip, port: 5001 },
    };
    reg.add_client(ClientInfo { id: 1, transport: udp, is_playing: false });
    reg.add_client(ClientInfo {
        id: 2,
        transport: TransportMode::TcpInterleaved { rtp_channel: 0, rtcp_channel: 1 },
        is_playing: true,
    });
    reg.set_playing(1, true);
    assert_eq!(reg.get_playing_clients().len(), 2);
    assert_eq!(reg.get_udp_clients(), vec![(SockAddr { ip, port: 5000 }, SockAddr { ip, port: 5001 })]);
    reg.add_client(ClientInfo { id: 1, transport: udp, is_playing: false });
    assert_eq!(reg.get_playing_clients().len(), 1);
    reg.remove_client(2);
    assert!(reg.get_playing_clients().is_empty());
    assert_eq!(reg.fresh_id(1), Some(2));
    assert_eq!(reg.fresh_id(9), Some(9));
    reg.add_client(ClientInfo { id: u64::MAX, transport: udp, is_playing: false });
    assert_eq!(reg.fresh_id(1), None);
}

#[test]
fn restart_delay_doubles_up_to_thirty_seconds() {
    assert_eq!(next_restart_delay(1), 2);
    assert_eq!(next_restart_delay(8), 16);
    assert_eq!(next_restart_delay(16), 30);
    assert_eq!(next_restart_delay(30), 30);
    assert_eq!(next_restart_delay(u64::MAX), 30);
}

#[test]
fn reports_go_to_new_players_at_once() {
    let t = TransportMode::TcpInterleaved { rtp_channel: 0, rtcp_channel: 1 };
    let cs = vec![
        ClientInfo { id: 1, transport: t, is_playing: true },
        ClientInfo { id: 2, transport: t, is_playing: true },
    ];
    let due = clients_to_report(&cs, &vec![1], false);
    assert_eq!(due.len(), 1);
    assert_eq!(due[0].id, 2);
    assert_eq!(clients_to_report(&cs, &vec![1], true).len(), 2);
    assert!(clients_to_report(&cs, &vec![2, 1], false).is_empty());
}

#[test]
fn parameter_sets_are_cached() {
    let mut p = MediaPipeline::new(1, 3000);
    p.process_nalu(&nalu(0x67, 6));
    p.process_nalu(&nalu(0x68, 3));
    let (sps, pps) = p.parameter_sets();
    assert_eq!(sps, Some(nalu(0x67, 6)));
    assert_eq!(pps, Some(nalu(0x68, 3)));
}

#[test]
fn replayed_parameter_sets_are_counted() {
    let mut p = MediaPipeline::new(1, 3000);
    let mut sent = Vec::new();
    for n in [nalu(0x67, 10), nalu(0x68, 4), nalu(0x65, 100), nalu(0x65, 50)] {
        sent.extend(p.process_nalu(&n));
    }
    // SPS, PPS, then SPS+PPS+IDR twice.
    assert_eq!(sent.len(), 8);
    assert_eq!(p.packet_count(), 8);
    let total: usize = sent.iter().map(|k| k.payload.len()).sum();
    assert_eq!(p.octet_count() as usize, total);
    assert_eq!(total, 10 + 4 + (10 + 4 + 100) + (10 + 4 + 50));
    let seqs: Vec<u16> = sent.iter().map(|k| k.header.sequence).collect();
    assert_eq!(seqs, (0..8).collect::<Vec<u16>>());
    assert_eq!(p.timestamp(), 6000);
}
