use sim_media_server::nalu::NaluParser;

#[test]
fn splits_at_three_and_four_byte_start_codes() {
    let mut p = NaluParser::new();
    let data = [0xaa, 0xbb, 0, 0, 0, 1, 0x67, 1, 2, 0, 0, 1, 0x68, 3, 0, 0, 0, 1, 0x65, 4, 5];
    let out = p.parse(&data);
    assert_eq!(out, vec![vec![0x67, 1, 2], vec![0x68, 3]]);
    let out = p.parse(&[0, 0, 1, 0x41, 6, 7, 8]);
    assert_eq!(out, vec![vec![0x65, 4, 5]]);
}

#[test]
fn start_code_split_across_calls_is_found() {
    let mut p = NaluParser::new();
    assert!(p.parse(&[0, 0, 0, 1, 0x67, 9, 9, 0, 0]).is_empty());
    let out = p.parse(&[0, 1, 0x68, 1, 1, 1, 1]);
    assert_eq!(out, vec![vec![0x67, 9, 9]]);
}

#[test]
fn leading_bytes_without_start_code_are_dropped() {
    let mut p = NaluParser::new();
    assert!(p.parse(&[5, 6, 7, 8, 9, 0, 0]).is_empty());
    assert!(p.parse(&[0, 1, 0x67, 2]).is_empty());
    let out = p.parse(&[0, 0, 1, 0x68, 0, 0]);
    assert_eq!(out, vec![vec![0x67, 2]]);
}

#[test]
fn empty_nal_units_are_suppressed() {
    let mut p = NaluParser::new();
    let out = p.parse(&[0, 0, 0, 1, 0, 0, 0, 1, 0x67, 1, 0, 0, 1, 0x68, 0, 0, 0]);
    assert_eq!(out, vec![vec![0x67, 1]]);
}

#[test]
fn unterminated_unit_is_kept_across_many_chunks() {
    let mut p = NaluParser::new();
    assert!(p.parse(&[0, 0, 0, 1, 0x65]).is_empty());
    for _ in 0..10 {
        assert!(p.parse(&[7u8; 100]).is_empty());
    }
    let out = p.parse(&[0, 0, 0, 1, 0x41, 1, 1, 1]);
    assert_eq!(out.len(), 1);
    assert_eq!(out[0].len(), 1001);
    assert_eq!(out[0][0], 0x65);
}

#[test]
fn four_byte_framing_round_trips() {
    let units: Vec<Vec<u8>> = vec![vec![0x67, 1, 2, 3], vec![0x68, 4], vec![0x65, 5, 6, 7, 8, 9]];
    let mut stream = vec![0x11, 0x22];
    for u in &units {
        stream.extend_from_slice(&[0, 0, 0, 1]);
        stream.extend_from_slice(u);
    }
    stream.extend_from_slice(&[0, 0, 0, 1, 0x41, 1, 1, 1]);
    let mut p = NaluParser::new();
    let mut out = Vec::new();
    for chunk in stream.chunks(3) {
        out.extend(p.parse(chunk));
    }
    assert_eq!(out, units);
    let mut joined = Vec::new();
    for u in &out {
        joined.extend_from_slice(&[0, 0, 0, 1]);
        joined.extend_from_slice(u);
    }
    assert_eq!(&stream[2..2 + joined.len()], &joined[..]);
}

#[test]
fn three_byte_code_at_the_end_closes_the_unit() {
    let mut p = NaluParser::new();
    let out = p.parse(&[0, 0, 0, 1, 0xaa, 0, 0, 1]);
    assert_eq!(out, vec![vec![0xaa]]);
    let out = p.parse(&[0x41, 5]);
    assert!(out.is_empty());
    assert_eq!(p.finish(), vec![vec![0x41, 5]]);
}

#[test]
fn finish_flushes_the_trailing_unit() {
    let mut p = NaluParser::new();
    assert!(p.parse(&[9, 0, 0, 0, 1, 0x65, 1, 2, 3]).is_empty());
    assert_eq!(p.finish(), vec![vec![0x65, 1, 2, 3]]);
    assert!(p.finish().is_empty());
    let mut q = NaluParser::new();
    assert!(q.parse(&[1, 2, 3, 4, 5]).is_empty());
    assert!(q.finish().is_empty());
}

#[test]
fn four_byte_code_split_after_three_zeros() {
    let mut p = NaluParser::new();
    assert!(p.parse(&[0, 0, 1, 0x67, 7, 0, 0, 0]).is_empty());
    let out = p.parse(&[1, 0x68, 8]);
    assert_eq!(out, vec![vec![0x67, 7]]);
}
