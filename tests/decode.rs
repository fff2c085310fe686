use ghosting::{
    decode_all, decode_all_v2, read_length_prefixed_string, segment_starts, DecodeError, GhostHeader, RunLineV1,
    RunLineV2,
};

fn header_bytes() -> Vec<u8> {
    vec![0x00, 0x01, 0x02, 10, 20, 30, 40, 50, 60, 5]
}

fn push_f32(out: &mut Vec<u8>, v: f32) {
    out.extend_from_slice(&v.to_le_bytes());
}

fn record_v1(map: &[u8], name: &[u8], t: f32, x: f32, y: f32, z: f32) -> Vec<u8> {
    let mut out = vec![map.len() as u8];
    out.extend_from_slice(map);
    out.push(name.len() as u8);
    out.extend_from_slice(name);
    for v in [t, x, y, z] {
        push_f32(&mut out, v);
    }
    out
}

#[test]
fn header_example_decodes() {
    let bytes = header_bytes();
    let mut pos = 0usize;
    let h = GhostHeader::read(&bytes, &mut pos).unwrap();
    assert_eq!(h.version, 1);
    assert_eq!(h.game, 2);
    assert_eq!(h.trail_color, (10, 20, 30));
    assert_eq!(h.ghost_color, (40, 50, 60));
    assert_eq!(h.trail_length, 5);
    assert_eq!(pos, 10);
}

#[test]
fn header_reserved_byte_is_ignored() {
    let mut a = header_bytes();
    let mut b = header_bytes();
    a[0] = 0x00;
    b[0] = 0xff;
    let (mut pa, mut pb) = (0usize, 0usize);
    let ha = GhostHeader::read(&a, &mut pa).unwrap();
    let hb = GhostHeader::read(&b, &mut pb).unwrap();
    assert_eq!(ha, hb);
}

#[test]
fn header_at_offset_reads_fields_in_order() {
    let bytes: Vec<u8> = vec![9, 9, 0, 1, 2, 3, 4, 5, 6, 7, 8, 9];
    let mut pos = 2usize;
    let h = GhostHeader::read(&bytes, &mut pos).unwrap();
    assert_eq!(h.version, 1);
    assert_eq!(h.game, 2);
    assert_eq!(h.trail_color, (3, 4, 5));
    assert_eq!(h.ghost_color, (6, 7, 8));
    assert_eq!(h.trail_length, 9);
    assert_eq!(pos, 12);
}

#[test]
fn header_short_input_fails() {
    let bytes = vec![0u8; 9];
    let mut pos = 0usize;
    assert_eq!(
        GhostHeader::read(&bytes, &mut pos).unwrap_err(),
        DecodeError::UnexpectedEndOfStream
    );
    assert_eq!(pos, 0);
}

#[test]
fn string_consumes_length_byte_and_payload() {
    let bytes: Vec<u8> = vec![3, b'a', b'b', b'c', 7];
    let mut pos = 0usize;
    let s = read_length_prefixed_string(&bytes, &mut pos).unwrap();
    assert_eq!(s, "abc");
    assert_eq!(pos, 4);
}

#[test]
fn string_empty() {
    let bytes: Vec<u8> = vec![0];
    let mut pos = 0usize;
    let s = read_length_prefixed_string(&bytes, &mut pos).unwrap();
    assert_eq!(s, "");
    assert_eq!(pos, 1);
}

#[test]
fn string_is_deterministic() {
    let a: Vec<u8> = vec![2, b'h', b'i'];
    let b: Vec<u8> = vec![0xaa, 2, b'h', b'i', 0xbb];
    let (mut pa, mut pb) = (0usize, 1usize);
    let sa = read_length_prefixed_string(&a, &mut pa).unwrap();
    let sb = read_length_prefixed_string(&b, &mut pb).unwrap();
    assert_eq!(sa, sb);
    assert_eq!(pa - 0, 3);
    assert_eq!(pb - 1, 3);
}

#[test]
fn string_invalid_utf8_is_replaced() {
    let bytes: Vec<u8> = vec![3, b'a', 0xff, b'b'];
    let mut pos = 0usize;
    let s = read_length_prefixed_string(&bytes, &mut pos).unwrap();
    assert_eq!(s, "a\u{fffd}b");
    assert_eq!(pos, 4);
}

#[test]
fn string_truncated_payload_fails() {
    let bytes: Vec<u8> = vec![5, b'a', b'b'];
    let mut pos = 0usize;
    assert_eq!(
        read_length_prefixed_string(&bytes, &mut pos).unwrap_err(),
        DecodeError::UnexpectedEndOfStream
    );
    assert_eq!(pos, 0);
}

#[test]
fn string_at_end_fails() {
    let bytes: Vec<u8> = vec![1, b'a'];
    let mut pos = 2usize;
    assert!(read_length_prefixed_string(&bytes, &mut pos).is_err());
    assert_eq!(pos, 2);
}

#[test]
fn record_v1_example_decodes() {
    let bytes = record_v1(b"test", b"", 1.5, 1.0, 2.0, 3.0);
    let mut pos = 0usize;
    let line = RunLineV1::read(&bytes, &mut pos).unwrap();
    assert_eq!(line.map, "test");
    assert_eq!(line.name, "");
    assert_eq!(f32::from_bits(line.timestamp_bits), 1.5);
    assert_eq!(f32::from_bits(line.x_bits), 1.0);
    assert_eq!(f32::from_bits(line.y_bits), 2.0);
    assert_eq!(f32::from_bits(line.z_bits), 3.0);
    assert_eq!(pos, bytes.len());
    assert_eq!(pos, 5 + 1 + 16);
}

#[test]
fn record_v1_float_bits_are_little_endian() {
    let mut bytes: Vec<u8> = vec![0, 0];
    bytes.extend_from_slice(&[0x01, 0x02, 0x03, 0x04]);
    bytes.extend_from_slice(&[0; 12]);
    let mut pos = 0usize;
    let line = RunLineV1::read(&bytes, &mut pos).unwrap();
    assert_eq!(line.timestamp_bits, 0x0403_0201);
    assert_eq!(line.x_bits, 0);
}

#[test]
fn record_with_empty_map_starts_a_segment() {
    let bytes = record_v1(b"", b"p", 0.0, 0.0, 0.0, 0.0);
    let mut pos = 0usize;
    let line = RunLineV1::read(&bytes, &mut pos).unwrap();
    assert_eq!(line.map, "");
    assert!(line.is_segment_start());

    let bytes = record_v1(b"m", b"p", 0.0, 0.0, 0.0, 0.0);
    let mut pos = 0usize;
    let line = RunLineV1::read(&bytes, &mut pos).unwrap();
    assert!(!line.is_segment_start());
}

#[test]
fn record_v1_truncated_in_floats_fails() {
    let full = record_v1(b"m", b"n", 1.0, 2.0, 3.0, 4.0);
    let bytes = full[..full.len() - 1].to_vec();
    let mut pos = 0usize;
    assert_eq!(
        RunLineV1::read(&bytes, &mut pos).unwrap_err(),
        DecodeError::UnexpectedEndOfStream
    );
    assert_eq!(pos, 0);
}

#[test]
fn record_v1_truncated_in_name_fails() {
    let bytes: Vec<u8> = vec![1, b'm', 4, b'n'];
    let mut pos = 0usize;
    assert!(RunLineV1::read(&bytes, &mut pos).is_err());
    assert_eq!(pos, 0);
}

#[test]
fn record_v2_reads_trailing_yaw() {
    let mut bytes = record_v1(b"map", b"me", 1.5, 1.0, 2.0, 3.0);
    push_f32(&mut bytes, -0.25);
    let mut pos = 0usize;
    let line = RunLineV2::read(&bytes, &mut pos).unwrap();
    assert_eq!(line.map, "map");
    assert_eq!(line.name, "me");
    assert_eq!(f32::from_bits(line.timestamp_bits), 1.5);
    assert_eq!(f32::from_bits(line.z_bits), 3.0);
    assert_eq!(f32::from_bits(line.yaw_bits), -0.25);
    assert!(!line.is_segment_start());
    assert_eq!(pos, bytes.len());
}

#[test]
fn record_v2_without_yaw_fails() {
    let bytes = record_v1(b"map", b"me", 1.5, 1.0, 2.0, 3.0);
    let mut pos = 0usize;
    assert!(RunLineV2::read(&bytes, &mut pos).is_err());
    assert_eq!(pos, 0);
}

#[test]
fn decode_all_two_records() {
    let r1 = record_v1(b"a", b"p1", 1.0, 2.0, 3.0, 4.0);
    let r2 = record_v1(b"", b"p2", 5.0, 6.0, 7.0, 8.0);
    let mut bytes = header_bytes();
    bytes.extend_from_slice(&r1);
    bytes.extend_from_slice(&r2);
    let g = decode_all(&bytes).unwrap();
    assert_eq!(g.header.version, 1);
    assert_eq!(g.lines.len(), 2);
    assert_eq!(g.trailing, 0);

    let mut p1 = 0usize;
    let d1 = RunLineV1::read(&r1, &mut p1).unwrap();
    let mut p2 = 0usize;
    let d2 = RunLineV1::read(&r2, &mut p2).unwrap();
    for (got, want) in g.lines.iter().zip([d1, d2].iter()) {
        assert_eq!(got.map, want.map);
        assert_eq!(got.name, want.name);
        assert_eq!(got.timestamp_bits, want.timestamp_bits);
        assert_eq!(got.x_bits, want.x_bits);
        assert_eq!(got.y_bits, want.y_bits);
        assert_eq!(got.z_bits, want.z_bits);
    }
    assert_eq!(g.lines[0].map, "a");
    assert_eq!(g.lines[1].name, "p2");
    assert!(g.lines[1].is_segment_start());
}

#[test]
fn decode_all_drops_truncated_tail() {
    let r1 = record_v1(b"a", b"p1", 1.0, 2.0, 3.0, 4.0);
    let r2 = record_v1(b"b", b"p2", 5.0, 6.0, 7.0, 8.0);
    let mut bytes = header_bytes();
    bytes.extend_from_slice(&r1);
    bytes.extend_from_slice(&r2[..7]);
    let g = decode_all(&bytes).unwrap();
    assert_eq!(g.lines.len(), 1);
    assert_eq!(g.lines[0].map, "a");
    assert_eq!(f32::from_bits(g.lines[0].z_bits), 4.0);
    assert_eq!(g.trailing, 7);
}

#[test]
fn decode_all_header_only() {
    let g = decode_all(&header_bytes()).unwrap();
    assert_eq!(g.header.trail_length, 5);
    assert!(g.lines.is_empty());
    assert_eq!(g.trailing, 0);
}

#[test]
fn decode_all_short_stream_fails() {
    for n in 0..10 {
        let bytes = header_bytes()[..n].to_vec();
        assert_eq!(
            decode_all(&bytes).unwrap_err(),
            DecodeError::UnexpectedEndOfStream
        );
    }
}

#[test]
fn segments_split_at_empty_maps() {
    let mut bytes = header_bytes();
    for map in [&b"a"[..], b"a", b"", b"b", b"", b""] {
        bytes.extend_from_slice(&record_v1(map, b"p", 0.0, 0.0, 0.0, 0.0));
    }
    let g = decode_all(&bytes).unwrap();
    assert_eq!(segment_starts(&g.lines), vec![0, 2, 4, 5]);
}

#[test]
fn segments_of_no_records() {
    assert!(segment_starts(&Vec::new()).is_empty());
}

#[test]
fn decode_all_v2_reads_yaw_records() {
    let mut r1 = record_v1(b"a", b"p", 1.0, 2.0, 3.0, 4.0);
    push_f32(&mut r1, 90.0);
    let mut r2 = record_v1(b"", b"p", 5.0, 6.0, 7.0, 8.0);
    push_f32(&mut r2, -90.0);
    let mut bytes = header_bytes();
    bytes.extend_from_slice(&r1);
    bytes.extend_from_slice(&r2);
    bytes.extend_from_slice(&r1[..3]);
    let g = decode_all_v2(&bytes).unwrap();
    assert_eq!(g.header.game, 2);
    assert_eq!(g.lines.len(), 2);
    assert_eq!(f32::from_bits(g.lines[0].yaw_bits), 90.0);
    assert_eq!(f32::from_bits(g.lines[1].yaw_bits), -90.0);
    assert_eq!(f32::from_bits(g.lines[1].x_bits), 6.0);
    assert_eq!(g.trailing, 3);
}

#[test]
fn decode_all_v2_short_stream_fails() {
    assert_eq!(
        decode_all_v2(&[0u8, 1, 2]).unwrap_err(),
        DecodeError::UnexpectedEndOfStream
    );
}
