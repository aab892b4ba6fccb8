use bagua_net::repeater::Repeater;
use bagua_net::wire::{decode_len, encode_len, ChunkInfo};

#[test]
fn lengths_travel_in_network_order() {
    assert_eq!(encode_len(0x0102), 0x0102usize.to_be_bytes().to_vec());
    assert_eq!(encode_len(0), 0usize.to_be_bytes().to_vec());
    assert_eq!(encode_len(usize::MAX), usize::MAX.to_be_bytes().to_vec());
    assert_eq!(encode_len(258)[encode_len(258).len() - 2..].to_vec(), vec![1u8, 2]);
}

#[test]
fn lengths_survive_the_wire() {
    let cases: [usize; 8] = [0, 1, 255, 256, 65535, 1 << 20, (1 << 31) + 5, usize::MAX];
    for len in cases {
        assert_eq!(decode_len(&encode_len(len)), len);
        assert_eq!(decode_len(&len.to_be_bytes()), len);
    }
}

#[test]
fn different_lengths_are_different_bytes() {
    assert_ne!(encode_len(1), encode_len(256));
}

#[test]
fn chunk_header_has_both_numbers_low_byte_first() {
    let info = ChunkInfo { chunk_offset: 0x0102_0304, chunk_size: -2 };
    assert_eq!(info.to_bytes(), vec![4u8, 3, 2, 1, 0xfe, 0xff, 0xff, 0xff]);
}

#[test]
fn chunk_header_is_read_by_bincode() {
    let cases: [(i32, i32); 5] =
        [(0, 0), (1, -1), (i32::MAX, i32::MIN), (70000, 12), (-70000, 1 << 30)];
    for (chunk_offset, chunk_size) in cases {
        let bytes = ChunkInfo { chunk_offset, chunk_size }.to_bytes();
        let back: (i32, i32) = bincode::deserialize(&bytes).unwrap();
        assert_eq!(back, (chunk_offset, chunk_size));
    }
}

#[test]
fn different_headers_are_different_bytes() {
    let a = ChunkInfo { chunk_offset: 1, chunk_size: 256 };
    let b = ChunkInfo { chunk_offset: 256, chunk_size: 1 };
    assert_ne!(a.to_bytes(), b.to_bytes());
}

#[test]
fn mirrored_chunks_are_announced_with_offset_and_size() {
    assert_eq!(Repeater::chunk_header(7, 258), vec![7u8, 0, 0, 0, 2, 1, 0, 0]);
    assert_eq!(
        Repeater::chunk_header(-1, 0x8000_0000),
        ChunkInfo { chunk_offset: -1, chunk_size: i32::MIN }.to_bytes()
    );
    assert_eq!(
        Repeater::chunk_header(0, 0xffff_ffff),
        ChunkInfo { chunk_offset: 0, chunk_size: -1 }.to_bytes()
    );
    assert_eq!(
        Repeater::chunk_header(0, 0x1_0000_0005),
        ChunkInfo { chunk_offset: 0, chunk_size: 5 }.to_bytes()
    );
}

#[test]
fn only_the_outer_ranks_mirror_and_only_with_storage() {
    assert!(Repeater::new(0, 4, true).active);
    assert!(Repeater::new(3, 4, true).active);
    assert!(!Repeater::new(1, 4, true).active);
    assert!(!Repeater::new(2, 4, true).active);
    assert!(!Repeater::new(0, 4, false).active);
    assert!(!Repeater::new(3, 4, false).active);
    assert!(Repeater::new(-1, 0, true).active);
    assert!(Repeater::new(0, i32::MIN, true).active);
}
