use sim_media_server::h264::H264Packetizer;
use sim_media_server::rtp_packet::{RtpHeader, RtpPacket};

fn nalu_of(len: usize, header: u8) -> Vec<u8> {
    let mut v = vec![header];
    for i in 1..len {
        v.push((i % 251) as u8);
    }
    v
}

#[test]
fn header_bytes_are_bit_exact() {
    let mut h = RtpHeader::new(96, 0x1234, 0xdead_beef, 0x1234_5678);
    assert_eq!(
        h.to_bytes(),
        [0x80, 96, 0x12, 0x34, 0xde, 0xad, 0xbe, 0xef, 0x12, 0x34, 0x56, 0x78]
    );
    h.marker = true;
    assert_eq!(h.to_bytes()[1], 0xe0);
}

#[test]
fn packet_bytes_are_header_then_payload() {
    let p = RtpPacket::new(RtpHeader::new(96, 1, 2, 3), vec![9, 8, 7]);
    let b = p.to_bytes();
    assert_eq!(b.len(), 15);
    assert_eq!(&b[12..], &[9, 8, 7]);
    assert_eq!(&b[2..4], &[0, 1]);
}

#[test]
fn single_nal_packetization() {
    let mut p = H264Packetizer::new(0x1234_5678);
    p.set_timestamp(4500);
    let nalu = nalu_of(100, 0x65);
    let packets = p.packetize(&nalu, true);
    assert_eq!(packets.len(), 1);
    assert_eq!(packets[0].to_bytes().len(), 112);
    assert_eq!(packets[0].header.sequence, 0);
    assert_eq!(packets[0].header.timestamp, 4500);
    assert!(packets[0].header.marker);
    assert_eq!(packets[0].payload, nalu);
    let again = p.packetize(&nalu, false);
    assert_eq!(again[0].header.sequence, 1);
    assert!(!again[0].header.marker);
}

#[test]
fn fu_a_packetization() {
    let mut p = H264Packetizer::new(7);
    let nalu = nalu_of(3000, 0x65);
    let packets = p.packetize(&nalu, true);
    assert_eq!(packets.len(), 3);
    // nalu[1..] is 2999 bytes: chunks of 1398, 1398 and 203, each after two prefix bytes.
    let sizes: Vec<usize> = packets.iter().map(|k| k.payload.len()).collect();
    assert_eq!(sizes, vec![1400, 1400, 205]);
    for k in &packets {
        assert_eq!(k.payload[0], 0x7c);
        assert_eq!(k.header.timestamp, 0);
    }
    assert_eq!(packets[0].payload[1], 0x85);
    assert_eq!(packets[1].payload[1], 0x05);
    assert_eq!(packets[2].payload[1], 0x45);
    let seqs: Vec<u16> = packets.iter().map(|k| k.header.sequence).collect();
    assert_eq!(seqs, vec![0, 1, 2]);
    let markers: Vec<bool> = packets.iter().map(|k| k.header.marker).collect();
    assert_eq!(markers, vec![false, false, true]);
    assert_eq!(p.sequence(), 3);
}

#[test]
fn fu_a_without_access_unit_end_marks_nothing() {
    let mut p = H264Packetizer::new(7);
    let packets = p.packetize(&nalu_of(3000, 0x41), false);
    assert!(packets.iter().all(|k| !k.header.marker));
}

#[test]
fn fu_a_reassembles_to_the_original() {
    let mut p = H264Packetizer::new(7);
    let nalu = nalu_of(5000, 0x65);
    let packets = p.packetize(&nalu, true);
    let mut rebuilt = vec![(packets[0].payload[0] & 0xe0) | (packets[0].payload[1] & 0x1f)];
    for k in &packets {
        rebuilt.extend_from_slice(&k.payload[2..]);
    }
    assert_eq!(rebuilt, nalu);
}

#[test]
fn nalu_of_exactly_mtu_is_not_fragmented() {
    let mut p = H264Packetizer::new(7);
    assert_eq!(p.packetize(&nalu_of(1400, 0x41), true).len(), 1);
    assert_eq!(p.packetize(&nalu_of(1401, 0x41), true).len(), 2);
}

#[test]
fn empty_nalu_gives_no_packet() {
    let mut p = H264Packetizer::new(7);
    assert!(p.packetize(&[], true).is_empty());
    assert_eq!(p.sequence(), 0);
}

#[test]
fn sequence_numbers_have_no_gaps_and_wrap() {
    let mut p = H264Packetizer::new(7);
    let mut expected: u16 = 0;
    for i in 0..66000usize {
        let len = if i % 1000 == 0 { 3000 } else { 20 };
        for k in p.packetize(&nalu_of(len, 0x41), true) {
            assert_eq!(k.header.sequence, expected);
            expected = expected.wrapping_add(1);
        }
    }
    assert_eq!(p.sequence(), expected);
}

#[test]
fn timestamp_wraps_modulo_2_32() {
    let mut p = H264Packetizer::new(7);
    p.set_timestamp(u32::MAX - 999);
    p.increment_timestamp(3000);
    assert_eq!(p.timestamp(), 2000);
}
