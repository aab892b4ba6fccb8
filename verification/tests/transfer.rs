use bagua_net::reader::{ReadAction, ReadEvent, TCPReader};
use bagua_net::receiver::{ReceiveAction, ReceiveEvent, ReceiverState};
use bagua_net::sender::Marks;
use bagua_net::wire::encode_len;
use bagua_net::writer::{TCPWriter, WriteAction, WriteEvent, WriteVec};

/// Reads `size` bytes from a list of chunks and returns how many were used.
fn read(reader: &mut TCPReader, buf: &mut [u8], size: usize, chunks: &[Vec<u8>]) -> usize {
    let mut used: usize = 0;
    let mut action = reader.read_exact(buf, size, ReadEvent::Start);
    loop {
        match action {
            ReadAction::Receive => {
                action = reader.read_exact(buf, size, ReadEvent::Received(&chunks[used]));
                used += 1;
            }
            ReadAction::Poll => unreachable!(),
            ReadAction::Done(n) => {
                assert_eq!(n, size as isize);
                return used;
            }
        }
    }
}

#[test]
fn a_read_takes_chunks_until_it_is_full() {
    let mut reader = TCPReader::new(5);
    let mut buf = vec![0u8; 6];
    let used = read(&mut reader, &mut buf, 5, &[vec![1, 2], vec![], vec![3, 4, 5]]);
    assert_eq!(used, 3);
    assert_eq!(buf, vec![1u8, 2, 3, 4, 5, 0]);
    assert_eq!(reader.partial, None);
    assert_eq!(reader.fd, 5);
}

#[test]
fn what_is_too_much_is_kept_for_the_next_read() {
    let mut reader = TCPReader::new(5);
    let mut buf = vec![0u8; 2];
    assert_eq!(read(&mut reader, &mut buf, 2, &[vec![1, 2, 3, 4, 5]]), 1);
    assert_eq!(buf, vec![1u8, 2]);
    assert_eq!(reader.partial, Some(vec![3u8, 4, 5]));
    assert_eq!(read(&mut reader, &mut buf, 1, &[]), 0);
    assert_eq!(buf, vec![3u8, 2]);
    assert_eq!(reader.partial, Some(vec![4u8, 5]));
    assert_eq!(read(&mut reader, &mut buf, 2, &[]), 0);
    assert_eq!(buf, vec![4u8, 5]);
    assert_eq!(reader.partial, None);
}

#[test]
fn what_was_kept_comes_before_what_is_received() {
    let mut reader = TCPReader::new(5);
    reader.partial = Some(vec![9, 8]);
    let mut buf = vec![0u8; 4];
    assert_eq!(read(&mut reader, &mut buf, 4, &[vec![7, 6, 5]]), 1);
    assert_eq!(buf, vec![9u8, 8, 7, 6]);
    assert_eq!(reader.partial, Some(vec![5u8]));
}

#[test]
fn a_rest_that_is_used_up_is_not_kept() {
    let mut reader = TCPReader::new(5);
    let segments = [vec![1u8, 2, 3], vec![4, 5, 6, 7, 8]];
    let mut buf = vec![0u8; 6];
    assert_eq!(read(&mut reader, &mut buf, 5, &segments), 2);
    assert_eq!(buf, vec![1u8, 2, 3, 4, 5, 0]);
    assert_eq!(reader.partial, Some(vec![6u8, 7, 8]));
    let mut buf = vec![0u8; 2];
    assert_eq!(read(&mut reader, &mut buf, 2, &[]), 0);
    assert_eq!(buf, vec![6u8, 7]);
    assert_eq!(reader.partial, Some(vec![8u8]));
    let mut buf = vec![0u8; 1];
    assert_eq!(read(&mut reader, &mut buf, 1, &[]), 0);
    assert_eq!(buf, vec![8u8]);
    assert_eq!(reader.partial, None);
}

#[test]
fn a_read_of_nothing_is_complete_at_once() {
    let mut reader = TCPReader::new(5);
    let mut buf: Vec<u8> = vec![];
    assert_eq!(reader.read_exact(&mut buf, 0, ReadEvent::Start), ReadAction::Done(0));
    reader.partial = Some(vec![1]);
    assert_eq!(reader.read_exact(&mut buf, 0, ReadEvent::Start), ReadAction::Done(0));
    assert_eq!(reader.partial, Some(vec![1u8]));
}

#[test]
fn a_connection_with_nothing_is_polled() {
    let mut reader = TCPReader::new(5);
    let mut buf = vec![0u8; 2];
    assert_eq!(reader.read_exact(&mut buf, 2, ReadEvent::Start), ReadAction::Receive);
    assert_eq!(reader.read_exact(&mut buf, 2, ReadEvent::Idle), ReadAction::Poll);
    assert_eq!(reader.read_exact(&mut buf, 2, ReadEvent::Received(&[1])), ReadAction::Receive);
    assert_eq!(reader.read_exact(&mut buf, 2, ReadEvent::Idle), ReadAction::Poll);
    assert_eq!(reader.read_exact(&mut buf, 2, ReadEvent::Received(&[2])), ReadAction::Done(2));
    assert_eq!(buf, vec![1u8, 2]);
}

#[test]
fn reads_deliver_the_stream_in_order_however_it_is_cut() {
    let stream: Vec<u8> = (0..60u8).collect();
    for cut in 1..13usize {
        let chunks: Vec<Vec<u8>> = stream.chunks(cut).map(|c| c.to_vec()).collect();
        let mut reader = TCPReader::new(1);
        let mut next: usize = 0;
        let mut delivered: Vec<u8> = vec![];
        for size in [3usize, 0, 8, 1, 20, 5, 23] {
            let mut buf = vec![0u8; size];
            next += read(&mut reader, &mut buf, size, &chunks[next..]);
            delivered.extend(buf);
        }
        assert_eq!(delivered, stream);
        assert_eq!(reader.partial, None);
    }
}

#[test]
fn a_transfer_arrives_as_sent() {
    let data: Vec<u8> = vec![10, 20, 30];
    let mut ctrl = TCPReader::new(1);
    let mut payload = TCPReader::new(2);
    let mut state = ReceiverState::Waiting;
    let width: usize = match state.step(ReceiveEvent::Requested) {
        ReceiveAction::ReadLength(n) => n,
        _ => unreachable!(),
    };
    assert_eq!(width, 0usize.to_be_bytes().len());
    assert_eq!(state, ReceiverState::ReadingLength);
    let mut announced = vec![0u8; width];
    read(&mut ctrl, &mut announced, width, &[encode_len(data.len())]);
    assert_eq!(state.step(ReceiveEvent::LengthRead(&announced)), ReceiveAction::ReadPayload(3));
    assert_eq!(state, ReceiverState::ReadingPayload(3));
    let mut buf = vec![0u8; 5];
    read(&mut payload, &mut buf, 3, &[data, vec![40]]);
    assert_eq!(buf, vec![10u8, 20, 30, 0, 0]);
    assert_eq!(state.step(ReceiveEvent::PayloadRead), ReceiveAction::Complete(3));
    assert_eq!(state, ReceiverState::Waiting);
}

#[test]
fn transfers_arrive_one_by_one_however_they_are_cut() {
    let transfers: Vec<Vec<u8>> = vec![vec![1, 2, 3], vec![], vec![4; 300], vec![5], vec![6, 7]];
    let lengths: Vec<u8> = transfers.iter().flat_map(|t| encode_len(t.len())).collect();
    let stream: Vec<u8> = transfers.concat();
    for cut in 1..40usize {
        let ctrl_chunks: Vec<Vec<u8>> = lengths.chunks(cut).map(|c| c.to_vec()).collect();
        let data_chunks: Vec<Vec<u8>> = stream.chunks(41 - cut).map(|c| c.to_vec()).collect();
        let mut ctrl = TCPReader::new(1);
        let mut payload = TCPReader::new(2);
        let (mut ctrl_next, mut data_next): (usize, usize) = (0, 0);
        let mut state = ReceiverState::Waiting;
        for sent in &transfers {
            let mut buf = vec![0u8; 300];
            let mut action = state.step(ReceiveEvent::Requested);
            loop {
                action = match action {
                    ReceiveAction::ReadLength(n) => {
                        let mut length = vec![0u8; n];
                        ctrl_next += read(&mut ctrl, &mut length, n, &ctrl_chunks[ctrl_next..]);
                        state.step(ReceiveEvent::LengthRead(&length))
                    }
                    ReceiveAction::ReadPayload(n) => {
                        data_next += read(&mut payload, &mut buf, n, &data_chunks[data_next..]);
                        state.step(ReceiveEvent::PayloadRead)
                    }
                    ReceiveAction::Complete(n) => {
                        assert_eq!(&buf[..n], &sent[..]);
                        break;
                    }
                };
            }
        }
        assert_eq!((ctrl.partial, payload.partial), (None, None));
    }
}

#[test]
fn a_write_carries_its_length_and_marks() {
    let mut writer = TCPWriter::new(7);
    assert_eq!(writer.fd, 7);
    let marks = Marks { dscp_bits: 0x84, optional_seq: 77 };
    assert_eq!(writer.tcp_write(WriteEvent::Start(300, marks)), WriteAction::Write);
    assert_eq!(
        writer.iov,
        WriteVec { iov_len: 300, iov_phys: 0, dscp_bits: 0x84, optional_seq: 77 }
    );
    writer.tcp_write(WriteEvent::Start(0x1_0000_0002, marks));
    assert_eq!(writer.iov.iov_len, 2);
}

#[test]
fn a_refused_write_is_tried_again() {
    let mut writer = TCPWriter::new(7);
    writer.tcp_write(WriteEvent::Start(3, Marks { dscp_bits: 1, optional_seq: 2 }));
    let iov = writer.iov;
    assert_eq!(writer.tcp_write(WriteEvent::Returned(-1)), WriteAction::Write);
    assert_eq!(writer.tcp_write(WriteEvent::Returned(-11)), WriteAction::Write);
    assert_eq!(writer.tcp_write(WriteEvent::Returned(0)), WriteAction::Done(0));
    assert_eq!(writer.tcp_write(WriteEvent::Returned(2)), WriteAction::Done(2));
    assert_eq!(writer.iov, iov);
}
