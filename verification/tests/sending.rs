use bagua_net::env::NetConfig;
use bagua_net::interface::{InetAddr, IpAddr, NCCLSocketDev, SockAddr, SocketHandle};
use bagua_net::plugin::BaguaNet;
use bagua_net::reader::{ReadAction, ReadEvent, TCPReader};
use bagua_net::receiver::{ReceiveAction, ReceiveEvent, ReceiverState};
use bagua_net::repeater::{MirrorAction, MirrorEvent, MirrorState};
use bagua_net::sender::{Chunk, Marks, SenderState};
use bagua_net::sending::{SendAction, SendEvent, SendStage, Sending};
use bagua_net::wire::encode_len;

const PLAIN: Marks = Marks { dscp_bits: 0, optional_seq: 0 };

fn chunk(bucket_id: i32, chunk_tag: i32, len: usize) -> Chunk {
    Chunk { bucket_id, chunk_tag, len }
}

/// Sends a transfer and returns what it put on the two connections, what it handed
/// on and what it counted, in the order in which it did so.
fn send(sender: &mut Sending, c: Chunk) -> (Vec<String>, Vec<u8>, Marks, usize) {
    let mut order = vec![];
    let mut announced = vec![];
    let mut marked = PLAIN;
    assert!(sender.accepts(c));
    let mut action = sender.step(SendEvent::Requested(c));
    loop {
        action = match action {
            SendAction::WriteLength(length, marks) => {
                assert_eq!(marks, PLAIN);
                order.push("length".to_string());
                announced = length;
                sender.step(SendEvent::LengthWritten)
            }
            SendAction::WritePayload(marks) => {
                order.push("payload".to_string());
                marked = marks;
                sender.step(SendEvent::PayloadWritten)
            }
            SendAction::Forward(chunk_offset) => {
                order.push(format!("copy for {}", chunk_offset));
                sender.step(SendEvent::Forwarded)
            }
            SendAction::Complete(nbytes) => {
                assert_eq!(sender.stage, SendStage::Waiting);
                return (order, announced, marked, nbytes);
            }
        };
    }
}

#[test]
fn a_transfer_goes_out_in_order() {
    let mut sender = Sending::new(SenderState::new(2), true);
    let (order, announced, marks, nbytes) = send(&mut sender, chunk(2, 30, 500));
    assert_eq!(order, ["length", "payload", "copy for 30"]);
    assert_eq!(announced, encode_len(500));
    assert_eq!(marks, Marks { dscp_bits: 0x84, optional_seq: 1 });
    assert_eq!(nbytes, 500);
    let (order, _, marks, nbytes) = send(&mut sender, chunk(2, -1, 7));
    assert_eq!(order, ["length", "payload"]);
    assert_eq!(marks, Marks { dscp_bits: 0, optional_seq: 501 });
    assert_eq!(nbytes, 7);
    let (order, _, _, _) = send(&mut sender, chunk(0, 4, 7));
    assert_eq!(order, ["length", "payload"]);
}

#[test]
fn without_storage_nothing_is_handed_on() {
    let mut sender = Sending::new(SenderState::new(1), false);
    let (order, _, marks, nbytes) = send(&mut sender, chunk(1, 0, 9));
    assert_eq!(order, ["length", "payload"]);
    assert_eq!(marks, Marks { dscp_bits: 0x80, optional_seq: 1 });
    assert_eq!(nbytes, 9);
}

#[test]
fn offsets_move_on_once_the_bytes_are_written() {
    let mut sender = Sending::new(SenderState::new(1), true);
    sender.step(SendEvent::Requested(chunk(1, 0, 9)));
    assert_eq!(sender.state.reduced_byte_offsets, vec![1u32]);
    sender.step(SendEvent::LengthWritten);
    assert_eq!(sender.state.reduced_byte_offsets, vec![1u32]);
    sender.step(SendEvent::PayloadWritten);
    assert_eq!(sender.state.reduced_byte_offsets, vec![10u32]);
    assert_eq!(sender.stage, SendStage::Forwarding(chunk(1, 0, 9)));
    sender.step(SendEvent::Forwarded);
    assert_eq!(sender.state.reduced_byte_offsets, vec![10u32]);
}

#[test]
fn transfers_that_cannot_be_sent_are_noticed() {
    let none = Sending::new(SenderState::new(0), true);
    assert!(!none.accepts(chunk(0, -1, 1)));
    let mut sender = Sending::new(SenderState::new(1), true);
    assert!(sender.accepts(chunk(1, 0, 0xffff_fffe)));
    assert!(!sender.accepts(chunk(1, 0, 0xffff_ffff)));
    sender.step(SendEvent::Requested(chunk(1, 0, 1)));
    assert!(!sender.accepts(chunk(1, 0, 1)));
}

#[test]
fn a_chunk_is_mirrored_in_order() {
    let mut state = MirrorState::Waiting;
    match state.step(MirrorEvent::Requested(3, 258)) {
        MirrorAction::WriteHeader(bytes) => assert_eq!(bytes, vec![3u8, 0, 0, 0, 2, 1, 0, 0]),
        _ => unreachable!(),
    }
    assert_eq!(state, MirrorState::WritingHeader);
    assert!(matches!(state.step(MirrorEvent::HeaderWritten), MirrorAction::WritePayload));
    assert_eq!(state, MirrorState::WritingPayload);
    assert!(matches!(state.step(MirrorEvent::PayloadWritten), MirrorAction::Complete(0)));
    assert_eq!(state, MirrorState::Waiting);
}

#[test]
fn buckets_in_rounds_go_to_the_server_of_their_number() {
    let mut sender = Sending::new(SenderState::new(3), false);
    for bucket in [0, 1, 1, 2, 0, 2, 3, 4, 0, 4, 5, 1, 2, 3, 1, 1, 0, 2] {
        let (_, _, marks, _) = send(&mut sender, chunk(bucket, 0, 1));
        if bucket == 0 {
            assert_eq!(marks.dscp_bits, 0);
        } else {
            assert_eq!(marks.dscp_bits as i32, 0x80 + 4 * ((bucket - 1) % 3));
        }
    }
}

fn net(storage: bool) -> BaguaNet {
    let config = NetConfig {
        rank: 0,
        nranks: 2,
        start_listen_port: 41000,
        storage_ip: [10, 40, 1, 104],
        num_storage: 2,
        nccl_nchannels: 4,
    };
    let device = NCCLSocketDev {
        interface_name: "eth1".to_string(),
        addr: SockAddr::Inet(InetAddr { ip: IpAddr::V4([10, 0, 0, 5]), port: 0 }),
        pci_path: "0000:17:00.0".to_string(),
    };
    BaguaNet::new(config, vec![device], storage).unwrap()
}

fn read(reader: &mut TCPReader, buf: &mut [u8], size: usize, chunks: &[Vec<u8>]) -> usize {
    let mut used: usize = 0;
    let mut action = reader.read_exact(buf, size, ReadEvent::Start);
    while action == ReadAction::Receive {
        action = reader.read_exact(buf, size, ReadEvent::Received(&chunks[used]));
        used += 1;
    }
    assert_eq!(action, ReadAction::Done(size as isize));
    used
}

#[test]
fn what_is_sent_is_received_and_told() {
    let data: Vec<Vec<u8>> = vec![vec![1, 2, 3], vec![], vec![4; 70], vec![5]];
    for storage in [false, true] {
        let mut near = net(storage);
        let mut far = net(false);
        let plan = near.connect(0, SocketHandle::new(IpAddr::V4([10, 0, 0, 6]), 41004)).unwrap();
        let comm = far.listen(0).unwrap().id;
        let mut sender = Sending::new(plan.sender, storage);
        let (mut ctrl, mut stream): (Vec<u8>, Vec<u8>) = (vec![], vec![]);
        let mut sends = vec![];
        for (i, bytes) in data.iter().enumerate() {
            let id = near.isend(plan.id, i as i32, i as i32).unwrap();
            assert_eq!(id, i);
            let c = near.chunk(id, bytes.len()).unwrap();
            let (order, length, _, nbytes) = send(&mut sender, c);
            ctrl.extend(length);
            stream.extend(bytes);
            assert_eq!(near.test(id), Ok((false, 0)));
            near.complete_subtask(id, nbytes);
            if order.len() == 3 {
                assert_eq!(near.test(id), Ok((false, bytes.len())));
                near.complete_subtask(id, 0);
            }
            sends.push(id);
        }
        for (id, bytes) in sends.iter().zip(&data) {
            assert_eq!(near.test(*id), Ok((true, bytes.len())));
            assert!(!near.socket_request_map.contains_key(id));
        }
        let ctrl: Vec<Vec<u8>> = ctrl.chunks(5).map(|c| c.to_vec()).collect();
        let stream: Vec<Vec<u8>> = stream.chunks(9).map(|c| c.to_vec()).collect();
        let (mut ctrl_reader, mut data_reader) = (TCPReader::new(1), TCPReader::new(2));
        let (mut ctrl_next, mut data_next): (usize, usize) = (0, 0);
        let mut state = ReceiverState::Waiting;
        for bytes in &data {
            let id = far.irecv(comm).unwrap();
            let mut buf = vec![0xeeu8; 80];
            let mut action = state.step(ReceiveEvent::Requested);
            loop {
                action = match action {
                    ReceiveAction::ReadLength(n) => {
                        let mut length = vec![0u8; n];
                        ctrl_next += read(&mut ctrl_reader, &mut length, n, &ctrl[ctrl_next..]);
                        state.step(ReceiveEvent::LengthRead(&length))
                    }
                    ReceiveAction::ReadPayload(n) => {
                        data_next += read(&mut data_reader, &mut buf, n, &stream[data_next..]);
                        state.step(ReceiveEvent::PayloadRead)
                    }
                    ReceiveAction::Complete(n) => {
                        assert_eq!(far.test(id), Ok((false, 0)));
                        far.complete_subtask(id, n);
                        break;
                    }
                };
            }
            assert_eq!(far.test(id), Ok((true, bytes.len())));
            assert_eq!(&buf[..bytes.len()], &bytes[..]);
            assert!(buf[bytes.len()..].iter().all(|b| *b == 0xee));
        }
    }
}
