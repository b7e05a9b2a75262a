use fig_parser::geometry::{decode_commands_blob, decode_vector_blob, f32_at, u32_at, PathCommand, WindingRule};

fn le(v: f32) -> [u8; 4] {
    v.to_le_bytes()
}

fn bits(v: f32) -> u32 {
    v.to_bits()
}

#[test]
fn rejects_oversized_vector_counts() {
    let mut bytes = Vec::new();
    bytes.extend_from_slice(&u32::MAX.to_le_bytes());
    bytes.extend_from_slice(&0u32.to_le_bytes());
    bytes.extend_from_slice(&0u32.to_le_bytes());
    assert!(decode_vector_blob(&bytes).is_none());
}

#[test]
fn decodes_commands() {
    let mut bytes = vec![1];
    bytes.extend_from_slice(&0.0f32.to_le_bytes());
    bytes.extend_from_slice(&1.0f32.to_le_bytes());
    bytes.push(2);
    bytes.extend_from_slice(&2.0f32.to_le_bytes());
    bytes.extend_from_slice(&3.0f32.to_le_bytes());
    bytes.push(4);
    for value in [2.0, 3.0, 4.0, 5.0, 6.0, 7.0] {
        bytes.extend_from_slice(&(value as f32).to_le_bytes());
    }
    bytes.push(3);
    assert_eq!(decode_commands_blob(&bytes).unwrap().len(), 4);
}

#[test]
fn commands_carry_exact_coordinates() {
    let mut bytes = vec![0, 1];
    bytes.extend_from_slice(&le(1.5));
    bytes.extend_from_slice(&le(-2.0));
    bytes.push(3);
    let cmds = decode_commands_blob(&bytes).unwrap();
    assert_eq!(cmds, vec![PathCommand::MoveTo { x: bits(1.5), y: bits(-2.0) }, PathCommand::Close]);
}

#[test]
fn commands_blob_rejects_unknown_opcode() {
    assert!(decode_commands_blob(&[5]).is_none());
}

#[test]
fn commands_blob_without_commands_is_none() {
    assert!(decode_commands_blob(&[]).is_none());
    assert!(decode_commands_blob(&[0, 0, 0]).is_none());
}

#[test]
fn commands_blob_rejects_truncated_and_non_finite() {
    let mut truncated = vec![2];
    truncated.extend_from_slice(&le(1.0));
    assert!(decode_commands_blob(&truncated).is_none());
    let mut nan = vec![2];
    nan.extend_from_slice(&le(f32::NAN));
    nan.extend_from_slice(&le(1.0));
    assert!(decode_commands_blob(&nan).is_none());
    let mut inf = vec![1];
    inf.extend_from_slice(&le(1.0));
    inf.extend_from_slice(&le(f32::INFINITY));
    assert!(decode_commands_blob(&inf).is_none());
}

#[test]
fn u32_at_reads_little_endian_and_advances() {
    let bytes = [0x78, 0x56, 0x34, 0x12, 0xff];
    let mut off = 0usize;
    assert_eq!(u32_at(&bytes, &mut off), Some(0x1234_5678));
    assert_eq!(off, 4);
    assert_eq!(u32_at(&bytes, &mut off), None);
    assert_eq!(off, 4);
    let mut far = 10usize;
    assert_eq!(u32_at(&bytes, &mut far), None);
    assert_eq!(far, 10);
}

#[test]
fn f32_at_rejects_non_finite_but_advances() {
    let mut bytes = Vec::new();
    bytes.extend_from_slice(&le(f32::INFINITY));
    bytes.extend_from_slice(&le(0.25));
    let mut off = 0usize;
    assert_eq!(f32_at(&bytes, &mut off), None);
    assert_eq!(off, 4);
    assert_eq!(f32_at(&bytes, &mut off), Some(bits(0.25)));
    assert_eq!(off, 8);
}

fn vector_blob_two_vertices(reversed: bool, tangent: f32) -> Vec<u8> {
    let mut b = Vec::new();
    for n in [2u32, 1, 1] {
        b.extend_from_slice(&n.to_le_bytes());
    }
    // vertices: style, x, y
    for (x, y) in [(0.0f32, 0.0f32), (10.0, 5.0)] {
        b.extend_from_slice(&0u32.to_le_bytes());
        b.extend_from_slice(&le(x));
        b.extend_from_slice(&le(y));
    }
    // segment: style, start, sdx, sdy, end, edx, edy
    b.extend_from_slice(&0u32.to_le_bytes());
    b.extend_from_slice(&0u32.to_le_bytes());
    b.extend_from_slice(&le(tangent));
    b.extend_from_slice(&le(0.0));
    b.extend_from_slice(&1u32.to_le_bytes());
    b.extend_from_slice(&le(0.0));
    b.extend_from_slice(&le(0.0));
    // region: style rule (id 3, even-odd), one loop of one segment
    b.extend_from_slice(&6u32.to_le_bytes());
    b.extend_from_slice(&1u32.to_le_bytes());
    b.extend_from_slice(&1u32.to_le_bytes());
    let idx: u32 = if reversed { 0x8000_0000 } else { 0 };
    b.extend_from_slice(&idx.to_le_bytes());
    b
}

#[test]
fn vector_blob_builds_closed_loop() {
    let paths = decode_vector_blob(&vector_blob_two_vertices(false, 0.0)).unwrap();
    assert_eq!(paths.len(), 1);
    assert_eq!(paths[0].style_id, 3);
    assert_eq!(paths[0].winding_rule, WindingRule::EvenOdd);
    assert_eq!(
        paths[0].commands,
        vec![
            PathCommand::MoveTo { x: bits(0.0), y: bits(0.0) },
            PathCommand::LineTo { x: bits(10.0), y: bits(5.0) },
            PathCommand::Close,
        ]
    );
}

#[test]
fn vector_blob_reversed_segment_runs_backwards() {
    let paths = decode_vector_blob(&vector_blob_two_vertices(true, 0.0)).unwrap();
    assert_eq!(paths[0].commands[0], PathCommand::MoveTo { x: bits(10.0), y: bits(5.0) });
    assert_eq!(paths[0].commands[1], PathCommand::LineTo { x: bits(0.0), y: bits(0.0) });
}

#[test]
fn vector_blob_tangents_make_cubics() {
    let paths = decode_vector_blob(&vector_blob_two_vertices(false, 2.0)).unwrap();
    match paths[0].commands[1] {
        PathCommand::TangentCubicTo { start_x, start_dx, x, y, .. } => {
            assert_eq!(start_x, bits(0.0));
            assert_eq!(start_dx, bits(2.0));
            assert_eq!(x, bits(10.0));
            assert_eq!(y, bits(5.0));
        }
        ref other => panic!("expected a cubic, got {:?}", other),
    }
}

#[test]
fn vector_blob_rejects_bad_segment_index() {
    let mut b = vector_blob_two_vertices(false, 0.0);
    let n = b.len();
    b[n - 4..].copy_from_slice(&7u32.to_le_bytes());
    assert!(decode_vector_blob(&b).is_none());
}
