use bagua_net::sender::{is_tagged, Chunk, Marks, SenderState};
use bagua_net::wire::encode_len;

fn chunk(bucket_id: i32, chunk_tag: i32, len: usize) -> Chunk {
    Chunk { bucket_id, chunk_tag, len }
}

fn send(sender: &mut SenderState, c: Chunk) -> Marks {
    assert!(sender.has_room_for(c));
    let plan = sender.begin(c, true);
    assert_eq!(plan.length, encode_len(c.len));
    assert_eq!(plan.length_marks, Marks { dscp_bits: 0, optional_seq: 0 });
    assert_eq!(plan.forward, is_tagged(c.bucket_id, c.chunk_tag));
    sender.finish();
    plan.marks
}

#[test]
fn a_new_sender_starts_every_offset_at_one() {
    let sender = SenderState::new(3);
    assert_eq!(sender.sid, 0);
    assert_eq!(sender.current_active_bucket, -1);
    assert_eq!(sender.reduced_byte_offsets, vec![1u32, 1, 1]);
    assert_eq!(sender.next_reduced_byte_offsets, vec![1u32, 1, 1]);
}

#[test]
fn buckets_take_turns_among_the_servers() {
    let mut sender = SenderState::new(2);
    assert_eq!(send(&mut sender, chunk(1, 0, 10)), Marks { dscp_bits: 0x80, optional_seq: 1 });
    assert_eq!(send(&mut sender, chunk(1, 10, 4)), Marks { dscp_bits: 0x80, optional_seq: 11 });
    assert_eq!(send(&mut sender, chunk(2, 0, 7)), Marks { dscp_bits: 0x84, optional_seq: 1 });
    assert_eq!(send(&mut sender, chunk(3, 0, 5)), Marks { dscp_bits: 0x80, optional_seq: 15 });
    assert_eq!(send(&mut sender, chunk(4, 0, 1)), Marks { dscp_bits: 0x84, optional_seq: 8 });
    assert_eq!(send(&mut sender, chunk(1, 0, 1)), Marks { dscp_bits: 0x80, optional_seq: 20 });
    assert_eq!(sender.reduced_byte_offsets, vec![21u32, 9]);
}

#[test]
fn warm_up_leaves_no_trace() {
    let mut sender = SenderState::new(2);
    send(&mut sender, chunk(2, 0, 3));
    let before = format!("{:?}", sender);
    let marks = send(&mut sender, chunk(0, 5, 100));
    assert_eq!(marks, Marks { dscp_bits: 0, optional_seq: 4 });
    assert_eq!(format!("{:?}", sender), before);
}

#[test]
fn a_negative_tag_turns_the_servers_but_moves_no_offset() {
    let mut sender = SenderState::new(2);
    send(&mut sender, chunk(1, 0, 10));
    let marks = send(&mut sender, chunk(2, -1, 50));
    assert_eq!(marks, Marks { dscp_bits: 0, optional_seq: 1 });
    assert_eq!(sender.sid, 1);
    assert_eq!(sender.reduced_byte_offsets, vec![11u32, 1]);
    let marks = send(&mut sender, chunk(2, 0, 5));
    assert_eq!(marks, Marks { dscp_bits: 0x84, optional_seq: 1 });
}

#[test]
fn the_first_bucket_goes_to_the_first_server_again() {
    let mut sender = SenderState::new(8);
    for bucket_id in 1..=8 {
        let marks = send(&mut sender, chunk(bucket_id, 0, 1));
        assert_eq!((marks.dscp_bits >> 2) & 0x1f, (bucket_id - 1) as u8);
        assert_eq!(marks.dscp_bits & 0x83, 0x80);
    }
    assert_eq!(send(&mut sender, chunk(9, 0, 1)).dscp_bits, 0x80);
    assert_eq!(send(&mut sender, chunk(10, 0, 1)).dscp_bits, 0x84);
    assert_eq!(send(&mut sender, chunk(1, 0, 1)).dscp_bits, 0x80);
}

#[test]
fn a_bucket_like_the_initial_one_is_no_change() {
    let mut sender = SenderState::new(2);
    assert_eq!(send(&mut sender, chunk(-1, 0, 1)).dscp_bits, 0x80);
}

#[test]
fn one_server_gets_everything() {
    let mut sender = SenderState::new(1);
    for i in 0..5u32 {
        let marks = send(&mut sender, chunk(i as i32 + 1, 0, 10));
        assert_eq!(marks, Marks { dscp_bits: 0x80, optional_seq: 1 + 10 * i });
    }
}

#[test]
fn nothing_moves_before_the_transfer_is_through() {
    let mut sender = SenderState::new(2);
    sender.begin(chunk(1, 0, 10), false);
    assert_eq!(sender.reduced_byte_offsets, vec![1u32, 1]);
    assert_eq!(sender.next_reduced_byte_offsets, vec![11u32, 1]);
    sender.finish();
    assert_eq!(sender.reduced_byte_offsets, vec![11u32, 1]);
}

#[test]
fn only_tagged_transfers_are_mirrored_and_only_with_storage() {
    let mut sender = SenderState::new(1);
    assert!(sender.begin(chunk(1, 0, 1), true).forward);
    sender.finish();
    assert!(!sender.begin(chunk(1, 0, 1), false).forward);
    sender.finish();
    assert!(!sender.begin(chunk(1, -1, 1), true).forward);
    sender.finish();
    assert!(!sender.begin(chunk(0, 0, 1), true).forward);
    sender.finish();
}

#[test]
fn offsets_that_do_not_fit_are_noticed() {
    let mut sender = SenderState::new(1);
    send(&mut sender, chunk(1, 0, u32::MAX as usize - 1));
    assert_eq!(sender.reduced_byte_offsets, vec![u32::MAX]);
    assert!(!sender.has_room_for(chunk(1, 0, 1)));
    assert!(sender.has_room_for(chunk(1, 0, 0)));
    assert!(sender.has_room_for(chunk(1, -1, 1)));
    assert!(sender.has_room_for(chunk(0, 0, 1)));
}

#[test]
fn lengths_count_by_their_low_bits() {
    let mut sender = SenderState::new(1);
    send(&mut sender, chunk(1, 0, 0x1_0000_0003));
    assert_eq!(sender.reduced_byte_offsets, vec![4u32]);
}
