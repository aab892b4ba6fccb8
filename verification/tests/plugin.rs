use bagua_net::env::NetConfig;
use bagua_net::interface::{
    BaguaNetError, InetAddr, IpAddr, NCCLSocketDev, SockAddr, SocketHandle,
};
use bagua_net::plugin::BaguaNet;
use bagua_net::request::{RequestState, SocketRequest};
use bagua_net::sender::Chunk;

fn config(rank: i32, nranks: i32) -> NetConfig {
    NetConfig {
        rank,
        nranks,
        start_listen_port: 41000,
        storage_ip: [10, 40, 1, 104],
        num_storage: 2,
        nccl_nchannels: 4,
    }
}

fn device(addr: SockAddr) -> NCCLSocketDev {
    NCCLSocketDev {
        interface_name: "eth1".to_string(),
        addr,
        pci_path: "0000:17:00.0".to_string(),
    }
}

fn local() -> IpAddr {
    IpAddr::V4([10, 0, 0, 5])
}

fn peer() -> SocketHandle {
    SocketHandle::new(IpAddr::V4([10, 0, 0, 6]), 41004)
}

fn net(rank: i32, nranks: i32, storage: bool) -> BaguaNet {
    let devices = vec![
        device(SockAddr::Inet(InetAddr { ip: local(), port: 0 })),
        device(SockAddr::Other("Link(LinkAddr)".to_string())),
    ];
    BaguaNet::new(config(rank, nranks), devices, storage).unwrap()
}

#[test]
fn a_plugin_needs_a_device() {
    assert_eq!(
        BaguaNet::new(config(0, 2), vec![], false).err(),
        Some(BaguaNetError::InnerError("No available network devices found".to_string()))
    );
}

#[test]
fn a_new_plugin_has_nothing_open() {
    let n = net(0, 2, false);
    assert_eq!(n.devices(), Ok(2));
    assert_eq!(n.storage_server_port, 5678);
    assert_eq!(net(1, 2, false).storage_server_port, 5682);
    assert_eq!(net(-1, -1, false).storage_server_port, 5682);
    assert_eq!(n.storage_server_ip, IpAddr::V4([10, 40, 1, 104]));
    assert!(n.listen_comm_map.is_empty() && n.send_comm_map.is_empty());
    assert!(n.recv_comm_map.is_empty() && n.socket_request_map.is_empty());
}

#[test]
fn a_device_is_described() {
    let p = net(0, 2, false).get_properties(1, 100_000).unwrap();
    assert_eq!(p.name, "eth1");
    assert_eq!(p.pci_path, "0000:17:00.0");
    assert_eq!(p.guid, 1);
    assert_eq!(p.ptr_support, 1);
    assert_eq!(p.speed, 100_000);
    assert_eq!(p.port, 0);
    assert_eq!(p.max_comms, 65536);
}

#[test]
fn each_receiver_has_a_port_and_a_core() {
    let mut n = net(2, 4, false);
    for i in 0..4usize {
        assert!(n.has_listen_port());
        let plan = n.listen(0).unwrap();
        assert_eq!(plan.id, i);
        assert_eq!(plan.handle, SocketHandle::new(local(), 41008 + i as u16));
        assert_eq!(plan.core, 8 + i);
        assert_eq!(n.accept(plan.id), Ok(i));
    }
    for i in 4..20usize {
        assert_eq!(n.listen(0).unwrap().core, (i + 8) % 16);
    }
}

#[test]
fn receivers_of_all_ranks_have_ports_of_their_own() {
    let mut ports: Vec<u16> = vec![];
    for rank in 0..6 {
        let mut n = net(rank, 6, false);
        for _ in 0..4 {
            match n.listen(0).unwrap().handle.addr {
                SockAddr::Inet(inet) => ports.push(inet.port),
                SockAddr::Other(_) => unreachable!(),
            }
        }
    }
    let count = ports.len();
    ports.sort();
    ports.dedup();
    assert_eq!(ports.len(), count);
}

#[test]
fn a_device_without_an_internet_address_cannot_be_listened_on() {
    let mut n = net(0, 2, false);
    assert_eq!(
        n.listen(1).err(),
        Some(BaguaNetError::InnerError(
            "Got invalid socket address, which is Link(LinkAddr)".to_string()
        ))
    );
    assert!(n.listen_comm_map.is_empty());
    assert_eq!(n.listen(0).unwrap().id, 0);
}

#[test]
fn ports_that_do_not_fit_are_noticed() {
    assert!(net(0, 2, false).has_listen_port());
    assert!(!net(-1, -1, false).has_listen_port());
    assert!(!net(i32::MAX, 2, false).has_listen_port());
    let mut n = net(6133, 6134, false);
    assert!(n.has_listen_port());
    assert_eq!(n.listen(0).unwrap().handle, SocketHandle::new(local(), 65532));
    n.recv_comm_next_id = 65536;
    n.listen_comm_next_id = 65536;
    assert_eq!(n.listen(0).unwrap().handle, SocketHandle::new(local(), 65532));
    n.recv_comm_next_id = 4;
    assert!(!n.has_listen_port());
    n.recv_comm_next_id = usize::MAX;
    assert!(!n.has_listen_port());
    let mut n = net(0, 2, true);
    assert!(n.has_storage_port());
    n.send_comm_next_id = 59858;
    assert!(!n.has_storage_port());
    n.send_comm_next_id = usize::MAX;
    assert!(!n.has_storage_port());
    assert!(!net(1, i32::MIN, true).has_storage_port());
    assert!(net(1, i32::MIN, false).has_storage_port());
}

#[test]
fn each_sender_has_a_core_and_a_storage_port() {
    let storage = IpAddr::V4([10, 40, 1, 104]);
    let mut n = net(0, 3, true);
    let a = n.connect(0, peer()).unwrap();
    let b = n.connect(0, peer()).unwrap();
    assert_eq!((a.id, a.core), (0, 16));
    assert_eq!((b.id, b.core), (1, 17));
    assert_eq!(a.peer, peer());
    assert_eq!(a.storage_handle, SocketHandle::new(storage, 5678));
    assert_eq!(b.storage_handle, SocketHandle::new(storage, 5679));
    assert_eq!(a.sender.reduced_byte_offsets, vec![1u32, 1]);
    assert!(a.repeater.active && n.send_comm_map[&0].repeater.active);
    assert!(!net(1, 3, true).connect(0, peer()).unwrap().repeater.active);
    assert!(net(2, 3, true).connect(0, peer()).unwrap().repeater.active);
    assert!(!net(0, 3, false).connect(0, peer()).unwrap().repeater.active);
}

#[test]
fn a_send_is_complete_when_it_was_sent() {
    let mut n = net(0, 2, false);
    let comm = n.connect(0, peer()).unwrap().id;
    let request = n.isend(comm, 1, 0).unwrap();
    assert_eq!(request, 0);
    assert_eq!(n.test(request), Ok((false, 0)));
    n.complete_subtask(request, 12);
    assert_eq!(n.test(request), Ok((true, 12)));
    assert!(n.socket_request_map.is_empty());
    n.complete_subtask(request, 1);
    assert!(n.socket_request_map.is_empty());
    assert_eq!(n.isend(comm, 1, 0), Ok(1));
}

#[test]
fn a_mirrored_send_is_complete_when_it_was_mirrored_too() {
    let mut n = net(0, 2, true);
    let comm = n.connect(0, peer()).unwrap().id;
    let a = n.isend(comm, 1, 0).unwrap();
    let b = n.isend(comm, 2, 7).unwrap();
    n.complete_subtask(a, 12);
    assert_eq!(n.test(a), Ok((false, 12)));
    n.complete_subtask(b, 0);
    assert_eq!(n.test(b), Ok((false, 0)));
    n.complete_subtask(a, 0);
    n.complete_subtask(b, 5);
    assert_eq!(n.test(a), Ok((true, 12)));
    assert_eq!(n.test(b), Ok((true, 5)));
}

#[test]
fn sends_that_are_not_tagged_are_not_mirrored() {
    let mut n = net(0, 2, true);
    let comm = n.connect(0, peer()).unwrap().id;
    for (bucket_id, chunk_tag) in [(0, 0), (0, -1), (3, -1)] {
        let request = n.isend(comm, bucket_id, chunk_tag).unwrap();
        n.complete_subtask(request, 1);
        assert_eq!(n.test(request), Ok((true, 1)));
    }
}

#[test]
fn a_receive_is_complete_when_it_has_arrived() {
    let mut n = net(0, 2, true);
    let comm = n.listen(0).unwrap().id;
    let request = n.irecv(comm).unwrap();
    match &n.socket_request_map[&request] {
        SocketRequest::RecvRequest(r) => assert_eq!(r.state.nsubtasks, 1),
        SocketRequest::SendRequest(_) => unreachable!(),
    }
    assert_eq!(n.test(request), Ok((false, 0)));
    n.complete_subtask(request, 99);
    assert_eq!(n.test(request), Ok((true, 99)));
    assert!(!n.socket_request_map.contains_key(&request));
}

#[test]
fn an_error_is_told_and_the_request_is_kept() {
    let mut n = net(0, 2, false);
    let comm = n.connect(0, peer()).unwrap().id;
    let request = n.isend(comm, 1, 0).unwrap();
    let error = BaguaNetError::InnerError("broken".to_string());
    match n.socket_request_map.get_mut(&request).unwrap() {
        SocketRequest::SendRequest(r) => r.state.err = Some(error.clone()),
        SocketRequest::RecvRequest(_) => unreachable!(),
    }
    n.complete_subtask(request, 4);
    assert_eq!(n.test(request), Err(error));
    assert!(n.socket_request_map.contains_key(&request));
}

#[test]
fn what_is_closed_is_forgotten_for_good() {
    let mut n = net(0, 2, false);
    let recv = n.listen(0).unwrap().id;
    let send = n.connect(0, peer()).unwrap().id;
    assert_eq!(n.close_send(send), Ok(Some(0)));
    assert_eq!(n.close_send(send), Ok(None));
    assert_eq!(n.close_recv(recv), Ok(Some(0)));
    assert_eq!(n.close_recv(recv), Ok(None));
    assert_eq!(n.close_listen(recv), Ok(()));
    assert_eq!(n.close_listen(recv), Ok(()));
    assert_eq!(n.listen(0).unwrap().id, recv + 1);
    assert_eq!(n.connect(0, peer()).unwrap().id, send + 1);
    assert!(!n.recv_comm_map.contains_key(&recv) && !n.send_comm_map.contains_key(&send));
}

#[test]
fn a_request_says_what_it_transfers() {
    let mut n = net(0, 2, true);
    let comm = n.connect(0, peer()).unwrap().id;
    let request = n.isend(comm, 6, 40).unwrap();
    assert_eq!(n.chunk(request, 9), Some(Chunk { bucket_id: 6, chunk_tag: 40, len: 9 }));
    assert_eq!(n.chunk(request + 1, 9), None);
    let recv = n.listen(0).unwrap().id;
    let request = n.irecv(recv).unwrap();
    assert_eq!(n.chunk(request, 3), Some(Chunk { bucket_id: 0, chunk_tag: 0, len: 3 }));
}

#[test]
fn subtasks_that_cannot_be_counted_are_noticed() {
    let mut n = net(0, 2, false);
    let comm = n.connect(0, peer()).unwrap().id;
    let request = n.isend(comm, 1, 0).unwrap();
    assert!(n.can_complete_subtask(request, usize::MAX));
    n.complete_subtask(request, 1);
    assert!(n.can_complete_subtask(request, usize::MAX - 1));
    assert!(!n.can_complete_subtask(request, usize::MAX));
    assert!(n.can_complete_subtask(request + 1, usize::MAX));
    let mut s = RequestState::new_recv();
    s.completed_subtasks = usize::MAX;
    assert!(!s.can_complete_subtask(0));
}

#[test]
fn requests_count_only_what_is_done_for_them() {
    let mut n = net(0, 2, true);
    let send = n.connect(0, peer()).unwrap().id;
    let recv = n.listen(0).unwrap().id;
    let a = n.isend(send, 1, 0).unwrap();
    let b = n.irecv(recv).unwrap();
    n.complete_subtask(b, 30);
    assert_eq!(n.test(a), Ok((false, 0)));
    n.complete_subtask(a, 7);
    let c = n.isend(send, 0, 0).unwrap();
    assert_eq!(n.test(b), Ok((true, 30)));
    n.close_send(send).unwrap();
    n.complete_subtask(a, 0);
    assert_eq!(n.test(a), Ok((true, 7)));
    assert_eq!(n.test(c), Ok((false, 0)));
    assert!(!n.socket_request_map.contains_key(&a) && !n.socket_request_map.contains_key(&b));
}

#[test]
fn requests_keep_what_they_were_opened_with() {
    let s = RequestState::new_send(true, 4, 17);
    assert_eq!((s.nsubtasks, s.bucket_id, s.chunk_tag), (2, 4, 17));
    assert_eq!((s.completed_subtasks, s.nbytes_transferred), (0, 0));
    assert_eq!(s.err, None);
    let s = RequestState::new_send(false, 4, 17);
    assert_eq!(s.nsubtasks, 1);
    let s = RequestState::new_recv();
    assert_eq!((s.nsubtasks, s.bucket_id, s.chunk_tag), (1, 0, 0));
}
