use thcato::collision::{parse_ozt, read_le_u16, read_le_u32};

fn push_u32(b: &mut Vec<u8>, v: u32) {
    b.extend_from_slice(&v.to_le_bytes());
}

fn push_f32(b: &mut Vec<u8>, v: f32) {
    b.extend_from_slice(&v.to_le_bytes());
}

fn sample_file() -> Vec<u8> {
    let mut b = Vec::new();
    push_u32(&mut b, 24);
    for v in [0.0f32, 1.0, 2.0, -3.5, 4.25, 0.5] {
        push_f32(&mut b, v);
    }
    push_u32(&mut b, 6);
    for i in [0u16, 1, 258] {
        b.extend_from_slice(&i.to_le_bytes());
    }
    push_u32(&mut b, 12);
    for v in [0.0f32, 0.0, 1.0] {
        push_f32(&mut b, v);
    }
    b
}

#[test]
fn reads_little_endian_words() {
    let b = [0x78u8, 0x56, 0x34, 0x12, 0xff];
    assert_eq!(read_le_u32(&b, 0), 0x12345678);
    assert_eq!(read_le_u16(&b, 3), 0xff12);
}

#[test]
fn parses_vertices_indices_and_normals() {
    let d = parse_ozt(&sample_file()).unwrap();
    assert_eq!(d.vertex_bits.len(), 2);
    assert_eq!(d.vertex_bits[0], (0.0f32.to_bits(), 1.0f32.to_bits(), 2.0f32.to_bits()));
    assert_eq!(d.vertex_bits[1], ((-3.5f32).to_bits(), 4.25f32.to_bits(), 0.5f32.to_bits()));
    assert_eq!(d.indices, vec![0, 1, 258]);
    assert_eq!(d.normal_bits, vec![(0.0f32.to_bits(), 0.0f32.to_bits(), 1.0f32.to_bits())]);
}

#[test]
fn odd_index_byte_count_reads_half() {
    let mut b = Vec::new();
    push_u32(&mut b, 0);
    push_u32(&mut b, 3);
    b.extend_from_slice(&[5, 0]);
    push_u32(&mut b, 0);
    let d = parse_ozt(&b).unwrap();
    assert_eq!(d.indices, vec![5]);
    assert!(d.vertex_bits.is_empty());
    assert!(d.normal_bits.is_empty());
}

#[test]
fn trailing_bytes_are_ignored() {
    let mut b = sample_file();
    b.extend_from_slice(&[1, 2, 3]);
    assert!(parse_ozt(&b).is_some());
}

#[test]
fn malformed_files_are_rejected() {
    let good = sample_file();
    assert!(parse_ozt(&[]).is_none());
    assert!(parse_ozt(&good[..good.len() - 1]).is_none());
    assert!(parse_ozt(&good[..10]).is_none());
    let mut partial = Vec::new();
    push_u32(&mut partial, 13);
    partial.extend_from_slice(&[0u8; 13]);
    push_u32(&mut partial, 0);
    push_u32(&mut partial, 0);
    assert!(parse_ozt(&partial).is_none());
}
