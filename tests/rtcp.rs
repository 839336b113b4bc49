use sim_media_server::rtcp::{ntp_from_unix, NtpTimestamp, SenderReport};

#[test]
fn sender_report_layout() {
    let mut sr = SenderReport::new(0x1234_5678);
    sr.add_packet(100);
    sr.add_packet(1400);
    let ntp = NtpTimestamp { seconds: 0xe000_0001, fraction: 0x8000_0000 };
    let b = sr.to_bytes_at(ntp, 0x0102_0304);
    assert_eq!(
        b,
        vec![
            0x80, 200, 0, 6, 0x12, 0x34, 0x56, 0x78, 0xe0, 0, 0, 1, 0x80, 0, 0, 0, 1, 2, 3, 4, 0, 0, 0, 2,
            0, 0, 0x05, 0xdc
        ]
    );
    assert_eq!(b.len(), 28);
}

#[test]
fn counters_wrap_around() {
    let mut sr = SenderReport::new(1);
    sr.packet_count = u32::MAX;
    sr.octet_count = u32::MAX - 10;
    sr.add_packet(20);
    assert_eq!(sr.packet_count, 0);
    assert_eq!(sr.octet_count, 9);
}

#[test]
fn ntp_conversion() {
    let t = ntp_from_unix(0, 500_000_000);
    assert_eq!(t, NtpTimestamp { seconds: 2_208_988_800, fraction: 0x8000_0000 });
    let t = ntp_from_unix(1_700_000_000, 0);
    assert_eq!(t.seconds, ((1_700_000_000u64 + 2_208_988_800) % (1u64 << 32)) as u32);
    assert_eq!(t.fraction, 0);
}

#[test]
fn report_now_reads_the_clock() {
    let sr = SenderReport::new(5);
    let b = sr.to_bytes(77);
    assert_eq!(b.len(), 28);
    let secs = u32::from_be_bytes([b[8], b[9], b[10], b[11]]) as u64;
    // Some time after 2023, counted from 1900.
    assert!(secs > 2_208_988_800 + 1_672_531_200 || secs < 1_000_000_000);
    assert_ne!(secs, 2_208_988_800);
    assert_eq!(&b[16..20], &77u32.to_be_bytes());
}
