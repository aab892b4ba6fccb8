//! The plugin: communicators, requests, and the ports, cores and servers that
//! go with them.

use vstd::prelude::*;
use std::collections::HashMap;
use crate::env::{NetConfig, MAX_STORAGE};
use crate::interface::{
    BaguaNetError, IpAddr, NCCLNetProperties, NCCLSocketDev, SockAddr, SocketHandle,
    SocketListenCommID, SocketRecvCommID, SocketRequestID, SocketSendCommID,
};
use crate::repeater::Repeater;
use crate::request::{RequestState, SocketRecvRequest, SocketRequest, SocketSendRequest};
use crate::sender::{Chunk, SenderState};

verus! {

/// Buffers lie in the memory of the host.
pub const NCCL_PTR_HOST: i32 = 1;

/// How many communicators a device can have.
pub const DEFAULT_SOCKET_MAX_COMMS: i32 = 65536;

/// How many parties meet before a communicator is accepted: the one that
/// accepts it, and the one that receives.
pub const ACCEPT_PARTIES: usize = 2;

/// A communicator that is listened on.
#[derive(Clone, Copy, Debug, PartialEq, Eq, Structural)]
pub struct SocketListenComm {
    /// How many parties meet before it is accepted.
    pub parties: usize,
}

/// A communicator that is sent on.
#[derive(Clone, Copy, Debug, PartialEq, Eq, Structural)]
pub struct SocketSendComm {
    pub sid: i32,
    pub repeater: Repeater,
}

/// A communicator that is received on.
#[derive(Clone, Copy, Debug, PartialEq, Eq, Structural)]
pub struct SocketRecvComm {
    pub sid: i32,
}

/// What it takes to listen: where peers connect, under which identifier, and on
/// which core the receiver runs.
#[derive(Debug)]
pub struct ListenPlan {
    pub handle: SocketHandle,
    pub id: SocketListenCommID,
    pub core: usize,
}

/// What it takes to send: under which identifier, on which core the sender runs,
/// where it connects, with which state it begins, and where its repeater, if any,
/// connects.
#[derive(Debug)]
pub struct ConnectPlan {
    pub id: SocketSendCommID,
    pub core: usize,
    pub peer: SocketHandle,
    pub sender: SenderState,
    pub repeater: Repeater,
    pub storage_handle: SocketHandle,
}

/// The low 16 bits of a number.
pub open spec fn low_u16(n: int) -> int {
    n % 0x1_0000
}

/// The port that receiver `id` of a rank listens on: each rank has a range of as
/// many ports as there are channels.
pub open spec fn listen_port(start: int, id: int, rank: int, nchannels: int) -> int {
    start + low_u16(id) + low_u16(rank * nchannels)
}

/// The port from which the ports of a storage server are counted for the senders
/// of a rank. The first rank has four ports of its own, for four channels.
pub open spec fn storage_base_port(rank: int) -> u16 {
    if rank == 0 {
        5678
    } else {
        5682
    }
}

/// The core that receiver `id` runs on.
pub open spec fn receiver_core(id: int) -> int {
    (id + 8) % 16
}

/// The core that sender `id` runs on.
pub open spec fn sender_core(id: int) -> int {
    id + 16
}

/// The plugin.
#[derive(Debug)]
pub struct BaguaNet {
    pub rank: i32,
    pub nranks: i32,
    pub nccl_nchannels: i32,
    pub start_listen_port: u16,
    pub devices: Vec<NCCLSocketDev>,
    pub listen_comm_next_id: usize,
    pub listen_comm_map: HashMap<SocketListenCommID, SocketListenComm>,
    pub send_comm_next_id: usize,
    pub send_comm_map: HashMap<SocketSendCommID, SocketSendComm>,
    pub recv_comm_next_id: usize,
    pub recv_comm_map: HashMap<SocketRecvCommID, SocketRecvComm>,
    pub socket_request_next_id: usize,
    pub socket_request_map: HashMap<SocketRequestID, SocketRequest>,
    pub num_storage: u8,
    pub storage_server_ip: IpAddr,
    pub storage_server_port: u16,
    /// Whether tagged transfers are mirrored to storage servers.
    pub storage: bool,
}

/// What a plugin holds.
#[verifier::ext_equal]
pub struct NetView {
    pub rank: int,
    pub nranks: int,
    pub nchannels: int,
    pub start_port: int,
    pub devices: Seq<NCCLSocketDev>,
    pub listen_next: int,
    pub listens: Map<usize, SocketListenComm>,
    pub send_next: int,
    pub sends: Map<usize, SocketSendComm>,
    pub recv_next: int,
    pub recvs: Map<usize, SocketRecvComm>,
    pub request_next: int,
    pub requests: Map<usize, SocketRequest>,
    pub num_storage: int,
    pub storage_ip: IpAddr,
    pub storage_port: int,
    pub storage: bool,
}

impl View for BaguaNet {
    type V = NetView;

    open spec fn view(&self) -> NetView {
        NetView {
            rank: self.rank as int,
            nranks: self.nranks as int,
            nchannels: self.nccl_nchannels as int,
            start_port: self.start_listen_port as int,
            devices: self.devices@,
            listen_next: self.listen_comm_next_id as int,
            listens: self.listen_comm_map@,
            send_next: self.send_comm_next_id as int,
            sends: self.send_comm_map@,
            recv_next: self.recv_comm_next_id as int,
            recvs: self.recv_comm_map@,
            request_next: self.socket_request_next_id as int,
            requests: self.socket_request_map@,
            num_storage: self.num_storage as int,
            storage_ip: self.storage_server_ip,
            storage_port: self.storage_server_port as int,
            storage: self.storage,
        }
    }
}

impl NetView {
    /// What every operation keeps: identifiers are handed out once, each
    /// listening communicator has a receiver of the same identifier, and the
    /// storage servers can be told apart.
    pub open spec fn valid(self) -> bool {
        &&& 0 <= self.listen_next
        &&& 0 <= self.send_next
        &&& 0 <= self.request_next
        &&& self.listen_next == self.recv_next
        &&& forall|id: usize| #[trigger] self.listens.contains_key(id) ==> id < self.listen_next
        &&& forall|id: usize| #[trigger] self.sends.contains_key(id) ==> id < self.send_next
        &&& forall|id: usize| #[trigger] self.recvs.contains_key(id) ==> id < self.recv_next
        &&& forall|id: usize| #[trigger] self.requests.contains_key(id) ==> id < self.request_next
        &&& 0 <= self.num_storage <= MAX_STORAGE
    }

    /// The port that the next receiver listens on.
    pub open spec fn next_listen_port(self) -> int {
        listen_port(self.start_port, self.recv_next, self.rank, self.nchannels)
    }

    /// The port of the storage server that the next sender mirrors to.
    pub open spec fn next_storage_port(self) -> int {
        self.storage_port + low_u16(self.send_next)
    }

    /// Whether the numbers that go with the next receiver can be written down.
    pub open spec fn can_listen(self) -> bool {
        &&& self.recv_next + 8 <= usize::MAX
        &&& i32::MIN <= self.rank * self.nchannels <= i32::MAX
        &&& self.next_listen_port() <= u16::MAX
    }

    /// Whether the numbers that go with the next sender can be written down.
    pub open spec fn can_connect(self) -> bool {
        &&& self.send_next + 16 <= usize::MAX
        &&& self.next_storage_port() <= u16::MAX
        &&& self.storage && self.rank != 0 ==> self.nranks > i32::MIN
    }
}

impl NetView {
    /// After starting to listen.
    pub open spec fn listening(self) -> NetView {
        NetView {
            listen_next: self.listen_next + 1,
            listens: self.listens.insert(
                self.listen_next as usize,
                SocketListenComm { parties: ACCEPT_PARTIES },
            ),
            recv_next: self.recv_next + 1,
            recvs: self.recvs.insert(self.recv_next as usize, SocketRecvComm { sid: 0 }),
            ..self
        }
    }

    /// After starting to send.
    pub open spec fn connected(self) -> NetView {
        let repeater = Repeater {
            active: Repeater::mirrors(self.storage, self.rank, self.nranks),
        };
        NetView {
            send_next: self.send_next + 1,
            sends: self.sends.insert(
                self.send_next as usize,
                SocketSendComm { sid: 0, repeater },
            ),
            ..self
        }
    }

    /// After opening a request.
    pub open spec fn opened(self, request: SocketRequest) -> NetView {
        NetView {
            request_next: self.request_next + 1,
            requests: self.requests.insert(self.request_next as usize, request),
            ..self
        }
    }

    /// A request to send, newly opened.
    pub open spec fn send_request(self, bucket_id: i32, chunk_tag: i32) -> SocketRequest {
        SocketRequest::SendRequest(
            SocketSendRequest { state: RequestState::to_send(self.storage, bucket_id, chunk_tag) },
        )
    }

    /// A request to receive, newly opened.
    pub open spec fn recv_request() -> SocketRequest {
        SocketRequest::RecvRequest(SocketRecvRequest { state: RequestState::to_receive() })
    }

    /// After a subtask of a request. One that is not known is not touched.
    pub open spec fn progressed(self, request_id: usize, nbytes: usize) -> NetView {
        if self.requests.contains_key(request_id) {
            let request = self.requests[request_id];
            NetView {
                requests: self.requests.insert(
                    request_id,
                    request.with_state(request.state().after_subtask(nbytes)),
                ),
                ..self
            }
        } else {
            self
        }
    }

    /// After asking how far a request has come: one that is complete is
    /// forgotten.
    pub open spec fn tested(self, request_id: usize) -> NetView {
        match self.requests[request_id].state().status() {
            Ok((true, _)) => NetView { requests: self.requests.remove(request_id), ..self },
            _ => self,
        }
    }

    /// After forgetting a communicator that is sent on.
    pub open spec fn without_send(self, id: usize) -> NetView {
        NetView { sends: self.sends.remove(id), ..self }
    }

    /// After forgetting a communicator that is received on.
    pub open spec fn without_recv(self, id: usize) -> NetView {
        NetView { recvs: self.recvs.remove(id), ..self }
    }

    /// After forgetting a communicator that is listened on.
    pub open spec fn without_listen(self, id: usize) -> NetView {
        NetView { listens: self.listens.remove(id), ..self }
    }
}

/// The low 16 bits of an `i32` in two's complement.
fn low_u16_of(n: i32) -> (r: u16)
    ensures
        r == low_u16(n as int),
{
    if n >= 0 {
        (n % 0x1_0000) as u16
    } else {
        let back: i32 = -(n + 1);
        (0xffff - back % 0x1_0000) as u16
    }
}

impl BaguaNet {
    /// A plugin with these settings and devices. There must be a device.
    pub fn new(config: NetConfig, devices: Vec<NCCLSocketDev>, storage: bool) -> (r: Result<
        BaguaNet,
        BaguaNetError,
    >)
        requires
            config.valid(),
        ensures
            match r {
                Ok(net) => {
                    &&& devices@.len() > 0
                    &&& net@.valid()
                    &&& net@ == (NetView {
                        rank: config.rank as int,
                        nranks: config.nranks as int,
                        nchannels: config.nccl_nchannels as int,
                        start_port: config.start_listen_port as int,
                        devices: devices@,
                        listen_next: 0,
                        listens: Map::empty(),
                        send_next: 0,
                        sends: Map::empty(),
                        recv_next: 0,
                        recvs: Map::empty(),
                        request_next: 0,
                        requests: Map::empty(),
                        num_storage: config.num_storage as int,
                        storage_ip: IpAddr::V4(config.storage_ip),
                        storage_port: storage_base_port(config.rank as int) as int,
                        storage,
                    })
                },
                Err(BaguaNetError::InnerError(text)) => devices@.len() == 0 && text@
                    == "No available network devices found"@,
            },
    {
        if devices.is_empty() {
            return Err(
                BaguaNetError::InnerError(String::from_str("No available network devices found")),
            );
        }
        Ok(
            BaguaNet {
                rank: config.rank,
                nranks: config.nranks,
                nccl_nchannels: config.nccl_nchannels,
                start_listen_port: config.start_listen_port,
                devices,
                listen_comm_next_id: 0,
                listen_comm_map: HashMap::new(),
                send_comm_next_id: 0,
                send_comm_map: HashMap::new(),
                recv_comm_next_id: 0,
                recv_comm_map: HashMap::new(),
                socket_request_next_id: 0,
                socket_request_map: HashMap::new(),
                num_storage: config.num_storage,
                storage_server_ip: IpAddr::V4(config.storage_ip),
                storage_server_port: if config.rank == 0 {
                    5678
                } else {
                    5682
                },
                storage,
            },
        )
    }

    /// The number of devices.
    pub fn devices(&self) -> (r: Result<usize, BaguaNetError>)
        ensures
            r == Ok::<usize, BaguaNetError>(self@.devices.len() as usize),
    {
        Ok(self.devices.len())
    }

    /// What the host is told of a device whose link has this speed.
    pub fn get_properties(&self, dev_id: usize, speed: i32) -> (r: Result<
        NCCLNetProperties,
        BaguaNetError,
    >)
        requires
            dev_id < self@.devices.len(),
        ensures
            r matches Ok(p) && {
                &&& p.name@ == self@.devices[dev_id as int].interface_name@
                &&& p.pci_path@ == self@.devices[dev_id as int].pci_path@
                &&& p.guid == dev_id
                &&& p.ptr_support == NCCL_PTR_HOST
                &&& p.speed == speed
                &&& p.port == 0
                &&& p.max_comms == DEFAULT_SOCKET_MAX_COMMS
            },
    {
        let socket_dev = &self.devices[dev_id];
        let p = NCCLNetProperties {
            name: socket_dev.interface_name.clone(),
            pci_path: socket_dev.pci_path.clone(),
            guid: dev_id as u64,
            ptr_support: NCCL_PTR_HOST,
            speed,
            port: 0,
            max_comms: DEFAULT_SOCKET_MAX_COMMS,
        };
        Ok(p)
    }

    /// Whether the numbers that go with the next receiver can be written down.
    pub fn has_listen_port(&self) -> (r: bool)
        ensures
            r == self@.can_listen(),
    {
        let range: i32 = match self.rank.checked_mul(self.nccl_nchannels) {
            Some(range) => range,
            None => return false,
        };
        if self.recv_comm_next_id > usize::MAX - 8 {
            return false;
        }
        let id: u64 = self.recv_comm_next_id as u64 % 0x1_0000;
        self.start_listen_port as u64 + id + low_u16_of(range) as u64 <= u16::MAX as u64
    }

    /// Starts to listen on a device, for one peer.
    pub fn listen(&mut self, dev_id: usize) -> (r: Result<ListenPlan, BaguaNetError>)
        requires
            old(self)@.valid(),
            dev_id < old(self)@.devices.len(),
            old(self)@.devices[dev_id as int].addr is Inet ==> old(self)@.can_listen(),
        ensures
            final(self)@.valid(),
            match r {
                Ok(plan) => {
                    &&& old(self)@.devices[dev_id as int].addr matches SockAddr::Inet(inet)
                    &&& plan.id == old(self)@.recv_next
                    &&& !old(self)@.listens.contains_key(plan.id)
                    &&& !old(self)@.recvs.contains_key(plan.id)
                    &&& plan.handle == SocketHandle::of(
                        inet.ip,
                        old(self)@.next_listen_port() as u16,
                    )
                    &&& plan.core == receiver_core(plan.id as int)
                    &&& final(self)@ == old(self)@.listening()
                },
                Err(BaguaNetError::InnerError(text)) => {
                    &&& old(self)@.devices[dev_id as int].addr matches SockAddr::Other(description)
                    &&& text@ == "Got invalid socket address, which is "@ + description@
                    &&& final(self)@ == old(self)@
                },
            },
    {
        let ip: IpAddr = match &self.devices[dev_id].addr {
            SockAddr::Inet(inet_addr) => inet_addr.ip,
            SockAddr::Other(description) => {
                return Err(
                    BaguaNetError::InnerError(
                        String::from_str("Got invalid socket address, which is ").concat(
                            description.as_str(),
                        ),
                    ),
                );
            },
        };
        let listen_id: usize = self.listen_comm_next_id;
        self.listen_comm_next_id += 1;
        self.listen_comm_map.insert(listen_id, SocketListenComm { parties: ACCEPT_PARTIES });
        let id: usize = self.recv_comm_next_id;
        self.recv_comm_next_id += 1;
        let port: u16 = self.start_listen_port + (id as u64 % 0x1_0000) as u16 + low_u16_of(
            self.rank * self.nccl_nchannels,
        );
        self.recv_comm_map.insert(id, SocketRecvComm { sid: 0 });
        Ok(ListenPlan { handle: SocketHandle::new(ip, port), id, core: (id + 8) % 16 })
    }

    /// Whether the numbers that go with the next sender can be written down.
    pub fn has_storage_port(&self) -> (r: bool)
        ensures
            r == self@.can_connect(),
    {
        if self.send_comm_next_id > usize::MAX - 16 {
            return false;
        }
        if self.storage && self.rank != 0 && self.nranks == i32::MIN {
            return false;
        }
        let id: u64 = self.send_comm_next_id as u64 % 0x1_0000;
        self.storage_server_port as u64 + id <= u16::MAX as u64
    }

    /// Starts to send to a peer, from whichever device reaches it.
    pub fn connect(&mut self, _dev_id: usize, socket_handle: SocketHandle) -> (r: Result<
        ConnectPlan,
        BaguaNetError,
    >)
        requires
            old(self)@.valid(),
            old(self)@.can_connect(),
        ensures
            final(self)@.valid(),
            r matches Ok(plan) && {
                &&& plan.id == old(self)@.send_next
                &&& !old(self)@.sends.contains_key(plan.id)
                &&& plan.core == sender_core(plan.id as int)
                &&& plan.peer == socket_handle
                &&& plan.sender.idle()
                &&& plan.sender.num_storage == old(self)@.num_storage
                &&& plan.sender@ == crate::sender::SenderView::initial(
                    old(self)@.num_storage as nat,
                )
                &&& plan.repeater.active == Repeater::mirrors(
                    old(self)@.storage,
                    old(self)@.rank,
                    old(self)@.nranks,
                )
                &&& plan.storage_handle == SocketHandle::of(
                    old(self)@.storage_ip,
                    old(self)@.next_storage_port() as u16,
                )
                &&& final(self)@ == old(self)@.connected()
            },
    {
        let id: usize = self.send_comm_next_id;
        self.send_comm_next_id += 1;
        let storage_handle = SocketHandle::new(
            self.storage_server_ip,
            self.storage_server_port + (id as u64 % 0x1_0000) as u16,
        );
        let repeater = Repeater::new(self.rank, self.nranks, self.storage);
        self.send_comm_map.insert(id, SocketSendComm { sid: 0, repeater });
        let sender = SenderState::new(self.num_storage);
        Ok(ConnectPlan { id, core: id + 16, peer: socket_handle, sender, repeater, storage_handle })
    }

    /// The communicator to receive on, of one that is listened on. It is handed
    /// out once the parties have met.
    pub fn accept(&self, listen_comm_id: SocketListenCommID) -> (r: Result<
        SocketRecvCommID,
        BaguaNetError,
    >)
        requires
            self@.listens.contains_key(listen_comm_id),
        ensures
            r == Ok::<usize, BaguaNetError>(listen_comm_id),
    {
        Ok(listen_comm_id)
    }

    /// Opens a request to send on a communicator.
    pub fn isend(
        &mut self,
        send_comm_id: SocketSendCommID,
        bucket_id: i32,
        chunk_tag: i32,
    ) -> (r: Result<SocketRequestID, BaguaNetError>)
        requires
            old(self)@.valid(),
            old(self)@.sends.contains_key(send_comm_id),
            old(self)@.request_next < usize::MAX,
        ensures
            final(self)@.valid(),
            r matches Ok(request_id) && {
                &&& request_id == old(self)@.request_next
                &&& !old(self)@.requests.contains_key(request_id)
                &&& final(self)@ == old(self)@.opened(
                    old(self)@.send_request(bucket_id, chunk_tag),
                )
            },
    {
        let request_id: usize = self.socket_request_next_id;
        self.socket_request_next_id += 1;
        let state = RequestState::new_send(self.storage, bucket_id, chunk_tag);
        self.socket_request_map.insert(
            request_id,
            SocketRequest::SendRequest(SocketSendRequest { state }),
        );
        Ok(request_id)
    }

    /// Opens a request to receive on a communicator.
    pub fn irecv(&mut self, recv_comm_id: SocketRecvCommID) -> (r: Result<
        SocketRequestID,
        BaguaNetError,
    >)
        requires
            old(self)@.valid(),
            old(self)@.recvs.contains_key(recv_comm_id),
            old(self)@.request_next < usize::MAX,
        ensures
            final(self)@.valid(),
            r matches Ok(request_id) && {
                &&& request_id == old(self)@.request_next
                &&& !old(self)@.requests.contains_key(request_id)
                &&& final(self)@ == old(self)@.opened(NetView::recv_request())
            },
    {
        let request_id: usize = self.socket_request_next_id;
        self.socket_request_next_id += 1;
        let state = RequestState::new_recv();
        self.socket_request_map.insert(
            request_id,
            SocketRequest::RecvRequest(SocketRecvRequest { state }),
        );
        Ok(request_id)
    }

    /// The transfer that a request is for, if it is one of `len` bytes and the
    /// request is known.
    pub fn chunk(&self, request_id: SocketRequestID, len: usize) -> (r: Option<Chunk>)
        ensures
            r == if self@.requests.contains_key(request_id) {
                Some(self@.requests[request_id].state().transfer(len))
            } else {
                None
            },
    {
        match self.socket_request_map.get(&request_id) {
            Some(SocketRequest::SendRequest(send_req)) => Some(send_req.state.chunk(len)),
            Some(SocketRequest::RecvRequest(recv_req)) => Some(recv_req.state.chunk(len)),
            None => None,
        }
    }

    /// Whether one more subtask of a request, with so many bytes, can be counted.
    pub fn can_complete_subtask(&self, request_id: SocketRequestID, nbytes: usize) -> (r: bool)
        ensures
            r == (self@.requests.contains_key(request_id)
                ==> self@.requests[request_id].state().countable(nbytes)),
    {
        match self.socket_request_map.get(&request_id) {
            Some(SocketRequest::SendRequest(send_req)) => send_req.state.can_complete_subtask(nbytes),
            Some(SocketRequest::RecvRequest(recv_req)) => recv_req.state.can_complete_subtask(nbytes),
            None => true,
        }
    }

    /// Counts a subtask of a request, which moved so many bytes. A request that
    /// is no longer known is not touched.
    pub fn complete_subtask(&mut self, request_id: SocketRequestID, nbytes: usize)
        requires
            old(self)@.valid(),
            old(self)@.requests.contains_key(request_id)
                ==> old(self)@.requests[request_id].state().countable(nbytes),
        ensures
            final(self)@.valid(),
            final(self)@ == old(self)@.progressed(request_id, nbytes),
    {
        match self.socket_request_map.remove(&request_id) {
            Some(SocketRequest::SendRequest(mut send_req)) => {
                send_req.state.complete_subtask(nbytes);
                self.socket_request_map.insert(request_id, SocketRequest::SendRequest(send_req));
            },
            Some(SocketRequest::RecvRequest(mut recv_req)) => {
                recv_req.state.complete_subtask(nbytes);
                self.socket_request_map.insert(request_id, SocketRequest::RecvRequest(recv_req));
            },
            None => {},
        }
        assert(self@.requests =~= old(self)@.progressed(request_id, nbytes).requests);
    }

    /// Tells how far a request has come, and forgets it if it is complete.
    pub fn test(&mut self, request_id: SocketRequestID) -> (r: Result<(bool, usize), BaguaNetError>)
        requires
            old(self)@.valid(),
            old(self)@.requests.contains_key(request_id),
        ensures
            final(self)@.valid(),
            r == old(self)@.requests[request_id].state().status(),
            final(self)@ == old(self)@.tested(request_id),
    {
        let ret: Result<(bool, usize), BaguaNetError> = match self.socket_request_map.get(
            &request_id,
        ) {
            Some(SocketRequest::SendRequest(send_req)) => send_req.state.test(),
            Some(SocketRequest::RecvRequest(recv_req)) => recv_req.state.test(),
            None => Ok((false, 0)),
        };
        if let Ok((done, _)) = &ret {
            if *done {
                self.socket_request_map.remove(&request_id);
            }
        }
        ret
    }

    /// Forgets a communicator that is sent on. If it was known, its socket is to
    /// be closed.
    pub fn close_send(&mut self, send_comm_id: SocketSendCommID) -> (r: Result<
        Option<i32>,
        BaguaNetError,
    >)
        requires
            old(self)@.valid(),
        ensures
            final(self)@.valid(),
            r == Ok::<Option<i32>, BaguaNetError>(
                if old(self)@.sends.contains_key(send_comm_id) {
                    Some(old(self)@.sends[send_comm_id].sid)
                } else {
                    None
                },
            ),
            final(self)@ == old(self)@.without_send(send_comm_id),
    {
        match self.send_comm_map.remove(&send_comm_id) {
            Some(comm) => Ok(Some(comm.sid)),
            None => Ok(None),
        }
    }

    /// Forgets a communicator that is received on. If it was known, its socket
    /// is to be closed.
    pub fn close_recv(&mut self, recv_comm_id: SocketRecvCommID) -> (r: Result<
        Option<i32>,
        BaguaNetError,
    >)
        requires
            old(self)@.valid(),
        ensures
            final(self)@.valid(),
            r == Ok::<Option<i32>, BaguaNetError>(
                if old(self)@.recvs.contains_key(recv_comm_id) {
                    Some(old(self)@.recvs[recv_comm_id].sid)
                } else {
                    None
                },
            ),
            final(self)@ == old(self)@.without_recv(recv_comm_id),
    {
        match self.recv_comm_map.remove(&recv_comm_id) {
            Some(comm) => Ok(Some(comm.sid)),
            None => Ok(None),
        }
    }

    /// Forgets a communicator that is listened on.
    pub fn close_listen(&mut self, listen_comm_id: SocketListenCommID) -> (r: Result<
        (),
        BaguaNetError,
    >)
        requires
            old(self)@.valid(),
        ensures
            final(self)@.valid(),
            r == Ok::<(), BaguaNetError>(()),
            final(self)@ == old(self)@.without_listen(listen_comm_id),
    {
        self.listen_comm_map.remove(&listen_comm_id);
        Ok(())
    }
}

/// Something that is done to a plugin.
pub enum NetOp {
    Listen,
    Connect,
    Isend(i32, i32),
    Irecv,
    CompleteSubtask(usize, usize),
    Test(usize),
    CloseSend(usize),
    CloseRecv(usize),
    CloseListen(usize),
}

impl NetView {
    /// Whether it can be done now.
    pub open spec fn allows(self, op: NetOp) -> bool {
        match op {
            NetOp::Listen => self.can_listen(),
            NetOp::Connect => self.can_connect(),
            NetOp::Isend(_, _) => self.request_next < usize::MAX,
            NetOp::Irecv => self.request_next < usize::MAX,
            NetOp::CompleteSubtask(id, nbytes) => self.requests.contains_key(id)
                ==> self.requests[id].state().countable(nbytes),
            NetOp::Test(id) => self.requests.contains_key(id),
            _ => true,
        }
    }

    /// After it was done.
    pub open spec fn after(self, op: NetOp) -> NetView {
        match op {
            NetOp::Listen => self.listening(),
            NetOp::Connect => self.connected(),
            NetOp::Isend(bucket_id, chunk_tag) => self.opened(
                self.send_request(bucket_id, chunk_tag),
            ),
            NetOp::Irecv => self.opened(NetView::recv_request()),
            NetOp::CompleteSubtask(id, nbytes) => self.progressed(id, nbytes),
            NetOp::Test(id) => self.tested(id),
            NetOp::CloseSend(id) => self.without_send(id),
            NetOp::CloseRecv(id) => self.without_recv(id),
            NetOp::CloseListen(id) => self.without_listen(id),
        }
    }

    /// After several things were done.
    pub open spec fn after_all(self, ops: Seq<NetOp>) -> NetView
        decreases ops.len(),
    {
        if ops.len() == 0 {
            self
        } else {
            self.after_all(ops.drop_last()).after(ops.last())
        }
    }

    /// Whether several things can be done one after the other.
    pub open spec fn allows_all(self, ops: Seq<NetOp>) -> bool
        decreases ops.len(),
    {
        ops.len() > 0 ==> {
            &&& self.allows_all(ops.drop_last())
            &&& self.after_all(ops.drop_last()).allows(ops.last())
        }
    }
}

/// How many times it is listened.
pub open spec fn listens_in(ops: Seq<NetOp>) -> int
    decreases ops.len(),
{
    if ops.len() == 0 {
        0
    } else {
        listens_in(ops.drop_last()) + if ops.last() is Listen {
            1int
        } else {
            0
        }
    }
}

/// How many times it is connected.
pub open spec fn connects_in(ops: Seq<NetOp>) -> int
    decreases ops.len(),
{
    if ops.len() == 0 {
        0
    } else {
        connects_in(ops.drop_last()) + if ops.last() is Connect {
            1int
        } else {
            0
        }
    }
}

/// How many requests are opened, to send or to receive.
pub open spec fn requests_in(ops: Seq<NetOp>) -> int
    decreases ops.len(),
{
    if ops.len() == 0 {
        0
    } else {
        requests_in(ops.drop_last()) + if ops.last() is Isend || ops.last() is Irecv {
            1int
        } else {
            0
        }
    }
}

/// Whatever is done to a plugin, it stays valid, and identifiers are handed out
/// one after the other, in the order of the calls: the next one is as far on as
/// there were calls that took one.
pub proof fn operations_keep_a_plugin_valid(v: NetView, ops: Seq<NetOp>)
    requires
        v.valid(),
        v.allows_all(ops),
    ensures
        v.after_all(ops).valid(),
        v.after_all(ops).listen_next == v.listen_next + listens_in(ops),
        v.after_all(ops).recv_next == v.recv_next + listens_in(ops),
        v.after_all(ops).send_next == v.send_next + connects_in(ops),
        v.after_all(ops).request_next == v.request_next + requests_in(ops),
        listens_in(ops) >= 0,
        connects_in(ops) >= 0,
        requests_in(ops) >= 0,
    decreases ops.len(),
{
    if ops.len() > 0 {
        operations_keep_a_plugin_valid(v, ops.drop_last());
    }
}

/// An identifier is never handed out twice: a request that was complete, and a
/// communicator that was closed, is not known again, whatever is done.
pub proof fn what_is_forgotten_stays_forgotten(v: NetView, ops: Seq<NetOp>, id: usize)
    requires
        v.valid(),
        v.allows_all(ops),
    ensures
        id < v.request_next && !v.requests.contains_key(id) ==> !v.after_all(
            ops,
        ).requests.contains_key(id),
        id < v.send_next && !v.sends.contains_key(id) ==> !v.after_all(ops).sends.contains_key(id),
        id < v.recv_next && !v.recvs.contains_key(id) ==> !v.after_all(ops).recvs.contains_key(id),
        id < v.listen_next && !v.listens.contains_key(id) ==> !v.after_all(
            ops,
        ).listens.contains_key(id),
    decreases ops.len(),
{
    if ops.len() > 0 {
        what_is_forgotten_stays_forgotten(v, ops.drop_last(), id);
        operations_keep_a_plugin_valid(v, ops.drop_last());
    }
}

/// Whether an operation is about a request.
pub open spec fn concerns(op: NetOp, id: usize) -> bool {
    match op {
        NetOp::CompleteSubtask(request_id, _) => request_id == id,
        NetOp::Test(request_id) => request_id == id,
        _ => false,
    }
}

/// Requests do not disturb each other: an open request stays as it is for as
/// long as nothing is done about it.
pub proof fn requests_do_not_disturb_each_other(v: NetView, ops: Seq<NetOp>, id: usize)
    requires
        v.valid(),
        v.allows_all(ops),
        v.requests.contains_key(id),
        forall|i: int| 0 <= i < ops.len() ==> !concerns(#[trigger] ops[i], id),
    ensures
        v.after_all(ops).requests.contains_key(id),
        v.after_all(ops).requests[id] == v.requests[id],
    decreases ops.len(),
{
    if ops.len() > 0 {
        let init = ops.drop_last();
        assert forall|i: int| 0 <= i < init.len() implies !concerns(#[trigger] init[i], id) by {
            assert(init[i] == ops[i]);
        }
        requests_do_not_disturb_each_other(v, init, id);
        operations_keep_a_plugin_valid(v, init);
        assert(!concerns(ops[ops.len() - 1], id));
    }
}

/// The subtasks of a request that are counted, by the bytes that they move.
pub open spec fn counts_of(ops: Seq<NetOp>, id: usize) -> Seq<usize>
    decreases ops.len(),
{
    if ops.len() == 0 {
        Seq::empty()
    } else {
        let before = counts_of(ops.drop_last(), id);
        match ops.last() {
            NetOp::CompleteSubtask(request_id, nbytes) => if request_id == id {
                before.push(nbytes)
            } else {
                before
            },
            _ => before,
        }
    }
}

impl NetView {
    /// Whether operation `k` of several tells that a request is complete.
    pub open spec fn tells_complete(self, ops: Seq<NetOp>, id: usize, k: int) -> bool {
        let now = self.after_all(ops.take(k));
        &&& ops[k] == NetOp::Test(id)
        &&& now.requests.contains_key(id)
        &&& now.requests[id].state().status() matches Ok((true, _))
    }
}

/// A request counts the subtasks that are done for it and the bytes that they
/// move, whatever else is done meanwhile, for as long as it is known; and it is
/// known until it was told complete. It is complete exactly if as many subtasks
/// were counted as it takes.
pub proof fn a_request_counts_what_is_done_for_it(v: NetView, ops: Seq<NetOp>, id: usize)
    requires
        v.valid(),
        v.allows_all(ops),
        v.requests.contains_key(id),
    ensures
        if v.after_all(ops).requests.contains_key(id) {
            let before = v.requests[id].state();
            let after = v.after_all(ops).requests[id].state();
            let counts = counts_of(ops, id);
            &&& after == before.after_subtasks(counts)
            &&& after.completed_subtasks == before.completed_subtasks + counts.len()
            &&& after.nbytes_transferred == before.nbytes_transferred + crate::request::total(
                counts,
            )
            &&& after.nsubtasks == before.nsubtasks
            &&& after.err == before.err
            &&& before.err is None ==> after.status() == Ok::<(bool, usize), BaguaNetError>(
                (
                    before.nsubtasks == before.completed_subtasks + counts.len(),
                    (before.nbytes_transferred + crate::request::total(counts)) as usize,
                ),
            )
        } else {
            exists|k: int| 0 <= k < ops.len() && #[trigger] v.tells_complete(ops, id, k)
        },
    decreases ops.len(),
{
    if ops.len() > 0 {
        let init = ops.drop_last();
        let now = v.after_all(init);
        a_request_counts_what_is_done_for_it(v, init, id);
        operations_keep_a_plugin_valid(v, init);
        if now.requests.contains_key(id) {
            let counts = counts_of(init, id);
            if let NetOp::CompleteSubtask(request_id, nbytes) = ops.last() {
                if request_id == id {
                    assert(counts.push(nbytes).drop_last() =~= counts);
                }
            }
            if !v.after_all(ops).requests.contains_key(id) {
                assert(ops.take(ops.len() - 1) =~= init);
                assert(v.tells_complete(ops, id, ops.len() - 1));
            }
        } else {
            let k = choose|k: int| 0 <= k < init.len() && #[trigger] v.tells_complete(init, id, k);
            assert(ops.take(k) =~= init.take(k));
            assert(v.tells_complete(ops, id, k));
        }
    }
}

/// A request is told complete once: from then on it is not known, whatever is
/// done. To ask of one that is not complete, or that has an error, changes
/// nothing.
pub proof fn a_request_is_told_complete_once(v: NetView, id: usize, ops: Seq<NetOp>)
    requires
        v.valid(),
        v.requests.contains_key(id),
        v.tested(id).allows_all(ops),
    ensures
        match v.requests[id].state().status() {
            Ok((true, _)) => !v.tested(id).after_all(ops).requests.contains_key(id),
            _ => v.tested(id) == v,
        },
{
    what_is_forgotten_stays_forgotten(v.tested(id), ops, id);
}

/// The identifier that listening gives is known to both sides of it until it is
/// closed: it can be accepted, and then received on.
pub proof fn what_is_listened_on_can_be_accepted(v: NetView, ops: Seq<NetOp>)
    requires
        v.valid(),
        v.listen_next <= usize::MAX,
        v.listening().allows_all(ops),
        !ops.contains(NetOp::CloseListen(v.recv_next as usize)),
        !ops.contains(NetOp::CloseRecv(v.recv_next as usize)),
    ensures
        v.listening().after_all(ops).listens.contains_key(v.recv_next as usize),
        v.listening().after_all(ops).recvs.contains_key(v.recv_next as usize),
    decreases ops.len(),
{
    if ops.len() > 0 {
        let init = ops.drop_last();
        assert forall|op: NetOp| !ops.contains(op) implies !init.contains(op) by {
            if init.contains(op) {
                let i = choose|i: int| 0 <= i < init.len() && init[i] == op;
                assert(ops[i] == op);
            }
        }
        what_is_listened_on_can_be_accepted(v, init);
        assert(ops[ops.len() - 1] == ops.last());
        assert(ops.contains(ops.last()));
    }
}

/// No two receivers listen on the same port, of one rank or of two, as long as
/// no rank has more receivers than channels and the ranges of ports do not wrap.
pub proof fn listen_ports_do_not_collide(
    start: int,
    nchannels: int,
    rank_a: int,
    id_a: int,
    rank_b: int,
    id_b: int,
)
    requires
        0 <= id_a < nchannels,
        0 <= id_b < nchannels,
        0 <= rank_a,
        0 <= rank_b,
        nchannels <= u16::MAX,
        rank_a * nchannels <= u16::MAX,
        rank_b * nchannels <= u16::MAX,
        rank_a != rank_b || id_a != id_b,
    ensures
        listen_port(start, id_a, rank_a, nchannels) != listen_port(start, id_b, rank_b, nchannels),
{
    assert(rank_a * nchannels >= 0 && rank_b * nchannels >= 0) by (nonlinear_arith)
        requires
            rank_a >= 0,
            rank_b >= 0,
            nchannels > 0,
    ;
    if id_a + rank_a * nchannels == id_b + rank_b * nchannels {
        let total = id_a + rank_a * nchannels;
        vstd::arithmetic::div_mod::lemma_fundamental_div_mod_converse(
            total,
            nchannels,
            rank_a,
            id_a,
        );
        vstd::arithmetic::div_mod::lemma_fundamental_div_mod_converse(
            total,
            nchannels,
            rank_b,
            id_b,
        );
    }
}

/// No two senders mirror to the same port of a storage server: neither two of one
/// rank, as long as their identifiers do not wrap, nor one of the first rank and
/// one of another, as long as neither rank has more than four.
pub proof fn storage_ports_do_not_collide(rank_a: int, id_a: int, rank_b: int, id_b: int)
    requires
        0 <= id_a <= u16::MAX,
        0 <= id_b <= u16::MAX,
        rank_a == rank_b && id_a != id_b || (rank_a == 0) != (rank_b == 0) && id_a < 4 && id_b < 4,
    ensures
        storage_base_port(rank_a) + low_u16(id_a) != storage_base_port(rank_b) + low_u16(id_b),
{
}

/// No sender runs on the core of a receiver.
pub proof fn senders_and_receivers_share_no_core(sender: int, receiver: int)
    requires
        0 <= sender,
        0 <= receiver,
    ensures
        sender_core(sender) != receiver_core(receiver),
{
}

/// The first sixteen receivers have a core each, and so does every sender.
pub proof fn cores_are_not_shared(a: int, b: int)
    requires
        0 <= a,
        0 <= b,
        a != b,
    ensures
        sender_core(a) != sender_core(b),
        a < 16 && b < 16 ==> receiver_core(a) != receiver_core(b),
{
}

impl NetView {
    /// Whether two views have the same settings and devices.
    pub open spec fn same_settings(self, other: NetView) -> bool {
        &&& self.rank == other.rank
        &&& self.nranks == other.nranks
        &&& self.nchannels == other.nchannels
        &&& self.start_port == other.start_port
        &&& self.devices == other.devices
        &&& self.num_storage == other.num_storage
        &&& self.storage_ip == other.storage_ip
        &&& self.storage_port == other.storage_port
        &&& self.storage == other.storage
    }
}

/// Nothing that is done to a plugin changes its settings or its devices.
pub proof fn settings_stay_as_they_are(v: NetView, ops: Seq<NetOp>)
    ensures
        v.after_all(ops).same_settings(v),
    decreases ops.len(),
{
    if ops.len() > 0 {
        settings_stay_as_they_are(v, ops.drop_last());
    }
}

/// The ports of a rank follow the start: whatever was done, the next receiver
/// listens as many ports behind the start as there are channels of ranks before it
/// and receivers of its own, and the next sender mirrors as many ports behind the
/// first storage port as there are senders.
pub proof fn ports_are_counted_from_their_start(v: NetView, ops: Seq<NetOp>)
    requires
        v.valid(),
        v.allows_all(ops),
    ensures
        0 <= v.rank * v.nchannels <= u16::MAX && v.recv_next + listens_in(ops) <= u16::MAX
            ==> v.after_all(ops).next_listen_port() == v.start_port + v.rank * v.nchannels
            + v.recv_next + listens_in(ops),
        v.send_next + connects_in(ops) <= u16::MAX ==> v.after_all(ops).next_storage_port()
            == v.storage_port + v.send_next + connects_in(ops),
{
    operations_keep_a_plugin_valid(v, ops);
    settings_stay_as_they_are(v, ops);
}

/// The ports of a rank are its own range behind the start: as many as there are
/// channels, one for each receiver, and the range of the next rank follows.
pub proof fn a_rank_has_its_range_of_ports(start: int, rank: int, nchannels: int, id: int)
    requires
        0 <= id < nchannels,
        0 <= rank,
        (rank + 1) * nchannels <= u16::MAX,
    ensures
        listen_port(start, 0, 0, nchannels) == start,
        listen_port(start, id, rank, nchannels) == start + rank * nchannels + id,
        start + rank * nchannels <= listen_port(start, id, rank, nchannels) < start + (rank + 1)
            * nchannels,
        listen_port(start, 0, rank + 1, nchannels) == start + (rank + 1) * nchannels,
{
    assert(0 <= rank * nchannels && rank * nchannels + nchannels == (rank + 1) * nchannels)
        by (nonlinear_arith)
        requires
            0 <= rank,
            0 < nchannels,
    ;
    assert(0 * nchannels == 0);
}

/// No two receivers of a plugin are given the same port, and no two senders of it
/// the same storage port, whatever is done between, as long as their identifiers do
/// not wrap.
pub proof fn a_plugin_gives_no_port_twice(v: NetView, ops: Seq<NetOp>)
    requires
        v.valid(),
    ensures
        v.listening().allows_all(ops) && v.recv_next + 1 + listens_in(ops) <= u16::MAX
            ==> v.next_listen_port() < v.listening().after_all(ops).next_listen_port(),
        v.connected().allows_all(ops) && v.send_next + 1 + connects_in(ops) <= u16::MAX
            ==> v.next_storage_port() < v.connected().after_all(ops).next_storage_port(),
{
    if v.listening().allows_all(ops) && v.recv_next + 1 + listens_in(ops) <= u16::MAX {
        assert(v.recv_next >= 0);
        lemma_listening_is_valid(v, ops);
        settings_stay_as_they_are(v.listening(), ops);
    }
    if v.connected().allows_all(ops) && v.send_next + 1 + connects_in(ops) <= u16::MAX {
        lemma_connected_is_valid(v, ops);
        settings_stay_as_they_are(v.connected(), ops);
    }
}

proof fn lemma_counts_are_natural(ops: Seq<NetOp>)
    ensures
        listens_in(ops) >= 0,
        connects_in(ops) >= 0,
        requests_in(ops) >= 0,
    decreases ops.len(),
{
    if ops.len() > 0 {
        lemma_counts_are_natural(ops.drop_last());
    }
}

proof fn lemma_listening_is_valid(v: NetView, ops: Seq<NetOp>)
    requires
        v.valid(),
        v.listening().allows_all(ops),
        v.recv_next + 1 + listens_in(ops) <= u16::MAX,
    ensures
        v.listening().after_all(ops).recv_next == v.recv_next + 1 + listens_in(ops),
        listens_in(ops) >= 0,
{
    lemma_counts_are_natural(ops);
    assert(v.listening().valid());
    operations_keep_a_plugin_valid(v.listening(), ops);
}

proof fn lemma_connected_is_valid(v: NetView, ops: Seq<NetOp>)
    requires
        v.valid(),
        v.connected().allows_all(ops),
        v.send_next + 1 + connects_in(ops) <= u16::MAX,
    ensures
        v.connected().after_all(ops).send_next == v.send_next + 1 + connects_in(ops),
        connects_in(ops) >= 0,
{
    lemma_counts_are_natural(ops);
    assert(v.connected().valid());
    operations_keep_a_plugin_valid(v.connected(), ops);
}

/// Receivers go around sixteen cores, from the ninth on, and senders have the cores
/// behind these, one after the other.
pub proof fn each_receiver_and_sender_has_the_next_core(id: int)
    requires
        0 <= id,
    ensures
        receiver_core(0) == 8,
        0 <= receiver_core(id) < 16,
        receiver_core(id + 1) == if receiver_core(id) == 15 {
            0
        } else {
            receiver_core(id) + 1
        },
        sender_core(0) == 16,
        sender_core(id + 1) == sender_core(id) + 1,
{
}

/// A plugin begins with what it was given: its settings and devices, the storage
/// ports of the first rank four before those of the others, and nothing open. It
/// needs a device.
pub proof fn a_new_plugin_has_what_it_was_given(
    config: NetConfig,
    devices: Vec<NCCLSocketDev>,
    storage: bool,
    r: Result<BaguaNet, BaguaNetError>,
)
    requires
        call_ensures(BaguaNet::new, (config, devices, storage), r),
    ensures
        r is Ok <==> devices@.len() > 0,
        r matches Err(BaguaNetError::InnerError(text)) ==> text@
            == "No available network devices found"@,
        r matches Ok(net) ==> {
            &&& net.rank == config.rank
            &&& net.nranks == config.nranks
            &&& net.nccl_nchannels == config.nccl_nchannels
            &&& net.start_listen_port == config.start_listen_port
            &&& net.devices@ == devices@
            &&& net.num_storage == config.num_storage
            &&& net.storage_server_ip == IpAddr::V4(config.storage_ip)
            &&& config.rank == 0 ==> net.storage_server_port == 5678
            &&& config.rank != 0 ==> net.storage_server_port == 5678 + 4
            &&& net.storage == storage
            &&& net.listen_comm_next_id == 0 && net.listen_comm_map@.dom().is_empty()
            &&& net.send_comm_next_id == 0 && net.send_comm_map@.dom().is_empty()
            &&& net.recv_comm_next_id == 0 && net.recv_comm_map@.dom().is_empty()
            &&& net.socket_request_next_id == 0 && net.socket_request_map@.dom().is_empty()
        },
{
}

/// What the host is told of a device: its name and path, its index as identifier,
/// that buffers lie in the memory of the host, the speed that was found, no port
/// number, and how many communicators it can have.
pub proof fn what_the_host_is_told_of_a_device(
    net: &BaguaNet,
    dev_id: usize,
    speed: i32,
    count: Result<usize, BaguaNetError>,
    r: Result<NCCLNetProperties, BaguaNetError>,
)
    requires
        net.devices@.len() <= usize::MAX,
        call_ensures(BaguaNet::devices, (net,), count),
        call_ensures(BaguaNet::get_properties, (net, dev_id, speed), r),
    ensures
        count is Ok && count->Ok_0 == net.devices@.len(),
        r matches Ok(p) && {
            &&& p.name@ == net.devices@[dev_id as int].interface_name@
            &&& p.pci_path@ == net.devices@[dev_id as int].pci_path@
            &&& p.guid == dev_id
            &&& p.ptr_support == 1
            &&& p.speed == speed
            &&& p.port == 0
            &&& p.max_comms == 65536
        },
{
}

/// What listening gives: the address of the device, and the port that is as far
/// behind the start as the identifier and the channels of the ranks before say, of
/// each of which 16 bits count; the identifier itself, which is the next one; and the
/// core, eight on from it around sixteen. A device without an internet address is
/// told of, and then nothing changes.
pub proof fn listening_gives_the_next_port(
    net: &mut BaguaNet,
    dev_id: usize,
    r: Result<ListenPlan, BaguaNetError>,
)
    requires
        dev_id < net.devices@.len(),
        net@.can_listen(),
        call_ensures(BaguaNet::listen, (net, dev_id), r),
    ensures
        match old(net).devices@[dev_id as int].addr {
            SockAddr::Inet(device) => {
                let id = old(net).recv_comm_next_id;
                let range = old(net).rank * old(net).nccl_nchannels;
                &&& r matches Ok(plan)
                &&& plan.handle.addr matches SockAddr::Inet(given)
                &&& given.ip == device.ip
                &&& given.port == old(net).start_listen_port + id as int % 0x1_0000 + range
                    % 0x1_0000
                &&& id <= u16::MAX && 0 <= range <= u16::MAX ==> given.port
                    == old(net).start_listen_port + range + id
                &&& plan.id == id
                &&& plan.core == (id + 8) % 16
                &&& final(net).recv_comm_next_id == id + 1
                &&& final(net).recv_comm_map@ == old(net).recv_comm_map@.insert(
                    id,
                    SocketRecvComm { sid: 0 },
                )
                &&& final(net).listen_comm_map@ == old(net).listen_comm_map@.insert(
                    old(net).listen_comm_next_id,
                    SocketListenComm { parties: 2 },
                )
                &&& final(net).listen_comm_next_id == old(net).listen_comm_next_id + 1
            },
            SockAddr::Other(description) => {
                &&& r matches Err(BaguaNetError::InnerError(text))
                &&& text@ == "Got invalid socket address, which is "@ + description@
                &&& final(net).recv_comm_next_id == old(net).recv_comm_next_id
                &&& final(net).listen_comm_next_id == old(net).listen_comm_next_id
                &&& final(net).recv_comm_map@ == old(net).recv_comm_map@
                &&& final(net).listen_comm_map@ == old(net).listen_comm_map@
            },
        },
        final(net).send_comm_next_id == old(net).send_comm_next_id,
        final(net).send_comm_map@ == old(net).send_comm_map@,
        final(net).socket_request_next_id == old(net).socket_request_next_id,
        final(net).socket_request_map@ == old(net).socket_request_map@,
        final(net)@.same_settings(old(net)@),
{
    assert(net.recv_comm_next_id + 8 <= usize::MAX);
}

/// A port to listen on is found to be there exactly if all the numbers that go with
/// it fit.
pub proof fn when_there_is_a_port_to_listen_on(net: &BaguaNet, r: bool)
    requires
        call_ensures(BaguaNet::has_listen_port, (net,), r),
    ensures
        r <==> {
            let range = net.rank * net.nccl_nchannels;
            &&& net.recv_comm_next_id + 8 <= usize::MAX
            &&& i32::MIN <= range <= i32::MAX
            &&& net.start_listen_port + net.recv_comm_next_id as int % 0x1_0000 + range % 0x1_0000
                <= 65535
        },
{
}

/// What connecting gives: the peer that was named; the next identifier; the core,
/// sixteen on from it; a sender that has sent nothing, for all storage servers; and,
/// at the address of the storage server, the port that is as far behind its first as
/// the identifier says. With storage, the first rank and the last one mirror.
pub proof fn connecting_gives_the_next_storage_port(
    net: &mut BaguaNet,
    dev_id: usize,
    peer: SocketHandle,
    r: Result<ConnectPlan, BaguaNetError>,
    fresh: SenderState,
)
    requires
        net@.can_connect(),
        call_ensures(BaguaNet::connect, (net, dev_id, peer), r),
        call_ensures(SenderState::new, (net.num_storage,), fresh),
    ensures
        ({
            let id = old(net).send_comm_next_id;
            let mirrors = old(net).storage && (old(net).rank == 0 || old(net).rank + 1
                == old(net).nranks);
            &&& r matches Ok(plan)
            &&& plan.id == id
            &&& plan.core == id + 16
            &&& plan.peer == peer
            &&& plan.sender@ == fresh@
            &&& plan.sender.num_storage == old(net).num_storage
            &&& plan.repeater.active <==> mirrors
            &&& plan.storage_handle.addr matches SockAddr::Inet(given)
            &&& given.ip == old(net).storage_server_ip
            &&& given.port == old(net).storage_server_port + id as int % 0x1_0000
            &&& id <= u16::MAX ==> given.port == old(net).storage_server_port + id
            &&& final(net).send_comm_next_id == id + 1
            &&& final(net).send_comm_map@ == old(net).send_comm_map@.insert(
                id,
                SocketSendComm { sid: 0, repeater: Repeater { active: mirrors } },
            )
        }),
        final(net).listen_comm_next_id == old(net).listen_comm_next_id,
        final(net).listen_comm_map@ == old(net).listen_comm_map@,
        final(net).recv_comm_next_id == old(net).recv_comm_next_id,
        final(net).recv_comm_map@ == old(net).recv_comm_map@,
        final(net).socket_request_next_id == old(net).socket_request_next_id,
        final(net).socket_request_map@ == old(net).socket_request_map@,
        final(net)@.same_settings(old(net)@),
{
    assert(net.send_comm_next_id + 16 <= usize::MAX);
}

/// A port of a storage server is found to be there exactly if all the numbers that
/// go with it fit.
pub proof fn when_there_is_a_storage_port(net: &BaguaNet, r: bool)
    requires
        call_ensures(BaguaNet::has_storage_port, (net,), r),
    ensures
        r <==> {
            &&& net.send_comm_next_id + 16 <= usize::MAX
            &&& net.storage_server_port + net.send_comm_next_id as int % 0x1_0000 <= 65535
            &&& net.storage && net.rank != 0 ==> net.nranks - 1 >= i32::MIN
        },
{
}

/// Two connections of one plugin, one after the other, have identifiers, cores and
/// storage ports of their own.
pub proof fn two_connections_share_nothing(
    net: &mut BaguaNet,
    dev_a: usize,
    peer_a: SocketHandle,
    a: ConnectPlan,
    later: &mut BaguaNet,
    dev_b: usize,
    peer_b: SocketHandle,
    b: ConnectPlan,
)
    requires
        net@.can_connect(),
        call_ensures(BaguaNet::connect, (net, dev_a, peer_a), Ok::<ConnectPlan, BaguaNetError>(a)),
        later@.can_connect(),
        later@.same_settings(final(net)@),
        final(net).send_comm_next_id <= later.send_comm_next_id <= u16::MAX,
        call_ensures(
            BaguaNet::connect,
            (later, dev_b, peer_b),
            Ok::<ConnectPlan, BaguaNetError>(b),
        ),
    ensures
        a.id < b.id,
        a.core < b.core,
        a.storage_handle != b.storage_handle,
{
    assert(net.send_comm_next_id + 16 <= usize::MAX);
    assert(a.storage_handle.addr matches SockAddr::Inet(x) && x.port == net.storage_server_port
        + net.send_comm_next_id);
    assert(b.storage_handle.addr matches SockAddr::Inet(y) && y.port == later.storage_server_port
        + later.send_comm_next_id);
}

/// Two receivers of one plugin, one after the other, have identifiers and ports of
/// their own.
pub proof fn two_receivers_share_nothing(
    net: &mut BaguaNet,
    dev_a: usize,
    a: ListenPlan,
    later: &mut BaguaNet,
    dev_b: usize,
    b: ListenPlan,
)
    requires
        net@.can_listen(),
        call_ensures(BaguaNet::listen, (net, dev_a), Ok::<ListenPlan, BaguaNetError>(a)),
        later@.can_listen(),
        later@.same_settings(final(net)@),
        final(net).recv_comm_next_id <= later.recv_comm_next_id <= u16::MAX,
        call_ensures(BaguaNet::listen, (later, dev_b), Ok::<ListenPlan, BaguaNetError>(b)),
    ensures
        a.id < b.id,
        a.handle != b.handle,
        b.id == a.id + 1 ==> a.core != b.core,
{
    assert(net.recv_comm_next_id + 8 <= usize::MAX);
    let range = low_u16(net.rank * net.nccl_nchannels);
    assert(a.handle.addr matches SockAddr::Inet(x) && x.port == net.start_listen_port
        + net.recv_comm_next_id + range);
    assert(b.handle.addr matches SockAddr::Inet(y) && y.port == later.start_listen_port
        + later.recv_comm_next_id + range);
}

/// Accepting gives the communicator to receive on, which has the identifier that
/// listening gave.
pub proof fn accepting_gives_what_was_listened_on(
    net: &BaguaNet,
    id: usize,
    r: Result<usize, BaguaNetError>,
)
    requires
        call_ensures(BaguaNet::accept, (net, id), r),
    ensures
        r is Ok && r->Ok_0 == id,
{
}

/// A request to send is opened under the next identifier, with the bucket and the
/// tag that it was given; the host is told of no progress yet, and it takes two
/// subtasks if there is storage, the tag is not negative and the bucket is not zero,
/// and else one. Nothing else changes.
pub proof fn a_send_is_opened_with_what_it_was_given(
    net: &mut BaguaNet,
    comm: usize,
    bucket_id: i32,
    chunk_tag: i32,
    r: Result<usize, BaguaNetError>,
)
    requires
        net.socket_request_next_id < usize::MAX,
        call_ensures(BaguaNet::isend, (net, comm, bucket_id, chunk_tag), r),
    ensures
        r matches Ok(id) && {
            &&& id == old(net).socket_request_next_id
            &&& final(net).socket_request_next_id == id + 1
            &&& final(net).socket_request_map@.contains_key(id)
            &&& final(net).socket_request_map@[id] matches SocketRequest::SendRequest(request)
            &&& request.state.nsubtasks == if old(net).storage && bucket_id != 0 && chunk_tag >= 0 {
                2
            } else {
                1int
            }
            &&& request.state.completed_subtasks == 0
            &&& request.state.nbytes_transferred == 0
            &&& request.state.bucket_id == bucket_id
            &&& request.state.chunk_tag == chunk_tag
            &&& request.state.err is None
            &&& final(net).socket_request_map@.remove(id) == old(net).socket_request_map@.remove(id)
        },
        final(net).listen_comm_map@ == old(net).listen_comm_map@,
        final(net).send_comm_map@ == old(net).send_comm_map@,
        final(net).recv_comm_map@ == old(net).recv_comm_map@,
        final(net)@.same_settings(old(net)@),
{
    let id = net.socket_request_next_id;
    assert(final(net).socket_request_map@.remove(id) =~= net.socket_request_map@.remove(id));
}

/// A request to receive is opened under the next identifier, with one subtask and
/// nothing done. Nothing else changes.
pub proof fn a_receive_is_opened_with_one_subtask(
    net: &mut BaguaNet,
    comm: usize,
    r: Result<usize, BaguaNetError>,
)
    requires
        net.socket_request_next_id < usize::MAX,
        call_ensures(BaguaNet::irecv, (net, comm), r),
    ensures
        r matches Ok(id) && {
            &&& id == old(net).socket_request_next_id
            &&& final(net).socket_request_next_id == id + 1
            &&& final(net).socket_request_map@.contains_key(id)
            &&& final(net).socket_request_map@[id] matches SocketRequest::RecvRequest(request)
            &&& request.state.nsubtasks == 1
            &&& request.state.completed_subtasks == 0
            &&& request.state.nbytes_transferred == 0
            &&& request.state.err is None
            &&& final(net).socket_request_map@.remove(id) == old(net).socket_request_map@.remove(id)
        },
        final(net).listen_comm_map@ == old(net).listen_comm_map@,
        final(net).send_comm_map@ == old(net).send_comm_map@,
        final(net).recv_comm_map@ == old(net).recv_comm_map@,
        final(net)@.same_settings(old(net)@),
{
    let id = net.socket_request_next_id;
    assert(final(net).socket_request_map@.remove(id) =~= net.socket_request_map@.remove(id));
}

/// A subtask is counted for the request that it is of, once and with all its bytes,
/// and for no other; what kind of request it is, and what it takes, stays. A request
/// that is not known stays so.
pub proof fn a_subtask_is_counted_for_its_request(net: &mut BaguaNet, id: usize, nbytes: usize)
    requires
        net.can_count(id, nbytes),
        call_ensures(BaguaNet::complete_subtask, (net, id, nbytes), ()),
    ensures
        final(net).socket_request_map@.contains_key(id) <==> old(
            net,
        ).socket_request_map@.contains_key(id),
        old(net).socket_request_map@.contains_key(id) ==> match (
            old(net).socket_request_map@[id],
            final(net).socket_request_map@[id],
        ) {
            (SocketRequest::SendRequest(a), SocketRequest::SendRequest(b)) => one_more(
                a.state,
                b.state,
                nbytes,
            ),
            (SocketRequest::RecvRequest(a), SocketRequest::RecvRequest(b)) => one_more(
                a.state,
                b.state,
                nbytes,
            ),
            _ => false,
        },
        final(net).socket_request_map@.remove(id) == old(net).socket_request_map@.remove(id),
        final(net).socket_request_next_id == old(net).socket_request_next_id,
        final(net).listen_comm_map@ == old(net).listen_comm_map@,
        final(net).send_comm_map@ == old(net).send_comm_map@,
        final(net).recv_comm_map@ == old(net).recv_comm_map@,
        final(net)@.same_settings(old(net)@),
{
    assert(final(net).socket_request_map@.remove(id) =~= net.socket_request_map@.remove(id));
}

/// Whether a request has one subtask more, and its bytes, and is else the same.
pub open spec fn one_more(a: RequestState, b: RequestState, nbytes: usize) -> bool {
    &&& b.completed_subtasks == a.completed_subtasks + 1
    &&& b.nbytes_transferred == a.nbytes_transferred + nbytes
    &&& b.nsubtasks == a.nsubtasks
    &&& b.bucket_id == a.bucket_id
    &&& b.chunk_tag == a.chunk_tag
    &&& b.err == a.err
}

impl BaguaNet {
    /// Whether a request, if it is known, can count one more subtask within range.
    pub open spec fn can_count(self, id: usize, nbytes: usize) -> bool {
        self.socket_request_map@.contains_key(id) ==> {
            let state = match self.socket_request_map@[id] {
                SocketRequest::SendRequest(request) => request.state,
                SocketRequest::RecvRequest(request) => request.state,
            };
            &&& state.completed_subtasks + 1 <= usize::MAX
            &&& state.nbytes_transferred + nbytes <= usize::MAX
        }
    }
}

/// A subtask is found to be countable exactly if the numbers of its request stay
/// within range; one of a request that is not known always is.
pub proof fn when_a_subtask_can_be_counted(net: &BaguaNet, id: usize, nbytes: usize, r: bool)
    requires
        call_ensures(BaguaNet::can_complete_subtask, (net, id, nbytes), r),
    ensures
        r <==> net.can_count(id, nbytes),
{
}

/// The transfer of a request that is known has the bucket and the tag that it was
/// opened with, and the length that is asked for.
pub proof fn the_transfer_of_a_request(net: &BaguaNet, id: usize, len: usize, r: Option<Chunk>)
    requires
        call_ensures(BaguaNet::chunk, (net, id, len), r),
    ensures
        r is Some <==> net.socket_request_map@.contains_key(id),
        r matches Some(chunk) ==> {
            let state = match net.socket_request_map@[id] {
                SocketRequest::SendRequest(request) => request.state,
                SocketRequest::RecvRequest(request) => request.state,
            };
            &&& chunk.bucket_id == state.bucket_id
            &&& chunk.chunk_tag == state.chunk_tag
            &&& chunk.len == len
        },
{
}

/// What the host is told of a request: its error if it has one; and else its bytes,
/// and that it is complete exactly if as many subtasks were counted as it takes. Then,
/// and only then, it is forgotten, and nothing else ever changes.
pub proof fn what_the_host_is_told_of_a_request(
    net: &mut BaguaNet,
    id: usize,
    r: Result<(bool, usize), BaguaNetError>,
)
    requires
        net.socket_request_map@.contains_key(id),
        call_ensures(BaguaNet::test, (net, id), r),
    ensures
        ({
            let state = match old(net).socket_request_map@[id] {
                SocketRequest::SendRequest(request) => request.state,
                SocketRequest::RecvRequest(request) => request.state,
            };
            let complete = state.err is None && state.completed_subtasks == state.nsubtasks;
            &&& state.err matches Some(e) ==> r == Err::<(bool, usize), BaguaNetError>(e)
            &&& state.err is None ==> r == Ok::<(bool, usize), BaguaNetError>(
                (complete, state.nbytes_transferred),
            )
            &&& final(net).socket_request_map@ == if complete {
                old(net).socket_request_map@.remove(id)
            } else {
                old(net).socket_request_map@
            }
        }),
        final(net).socket_request_next_id == old(net).socket_request_next_id,
        final(net).listen_comm_map@ == old(net).listen_comm_map@,
        final(net).send_comm_map@ == old(net).send_comm_map@,
        final(net).recv_comm_map@ == old(net).recv_comm_map@,
        final(net)@.same_settings(old(net)@),
{
}

/// Closing forgets the communicator that it names, gives its socket if it was known,
/// and touches no other.
pub proof fn closing_forgets_one_communicator(
    a: &mut BaguaNet,
    b: &mut BaguaNet,
    c: &mut BaguaNet,
    id: usize,
    ra: Result<Option<i32>, BaguaNetError>,
    rb: Result<Option<i32>, BaguaNetError>,
    rc: Result<(), BaguaNetError>,
)
    requires
        call_ensures(BaguaNet::close_send, (a, id), ra),
        call_ensures(BaguaNet::close_recv, (b, id), rb),
        call_ensures(BaguaNet::close_listen, (c, id), rc),
    ensures
        ra == Ok::<Option<i32>, BaguaNetError>(
            if old(a).send_comm_map@.contains_key(id) {
                Some(old(a).send_comm_map@[id].sid)
            } else {
                None
            },
        ),
        final(a).send_comm_map@ == old(a).send_comm_map@.remove(id),
        final(a).recv_comm_map@ == old(a).recv_comm_map@,
        final(a).listen_comm_map@ == old(a).listen_comm_map@,
        final(a).socket_request_map@ == old(a).socket_request_map@,
        final(a).send_comm_next_id == old(a).send_comm_next_id,
        rb == Ok::<Option<i32>, BaguaNetError>(
            if old(b).recv_comm_map@.contains_key(id) {
                Some(old(b).recv_comm_map@[id].sid)
            } else {
                None
            },
        ),
        final(b).recv_comm_map@ == old(b).recv_comm_map@.remove(id),
        final(b).send_comm_map@ == old(b).send_comm_map@,
        final(b).listen_comm_map@ == old(b).listen_comm_map@,
        final(b).socket_request_map@ == old(b).socket_request_map@,
        final(b).recv_comm_next_id == old(b).recv_comm_next_id,
        rc is Ok,
        final(c).listen_comm_map@ == old(c).listen_comm_map@.remove(id),
        final(c).send_comm_map@ == old(c).send_comm_map@,
        final(c).recv_comm_map@ == old(c).recv_comm_map@,
        final(c).socket_request_map@ == old(c).socket_request_map@,
        final(c).listen_comm_next_id == old(c).listen_comm_next_id,
{
}

/// A plugin can be made with all settings that can be read.
pub proof fn settings_that_can_be_read_make_a_plugin(
    vars: &crate::env::EnvVars,
    config: NetConfig,
    devices: Vec<NCCLSocketDev>,
    storage: bool,
)
    requires
        call_ensures(
            NetConfig::from_env,
            (vars,),
            Ok::<NetConfig, crate::env::EnvError>(config),
        ),
    ensures
        call_requires(BaguaNet::new, (config, devices, storage)),
{
}

/// What can be done with a plugin: to ask of its devices; to listen on one of them if
/// it has no internet address or a port is left; to connect if a storage port is
/// left; to send and to receive on communicators that are known, and to accept them;
/// to ask of requests that are known; to count what can be counted; and to close
/// anything.
pub proof fn what_can_be_done_with_a_plugin(
    net: &mut BaguaNet,
    dev_id: usize,
    speed: i32,
    peer: SocketHandle,
    id: usize,
    bucket_id: i32,
    chunk_tag: i32,
    nbytes: usize,
)
    requires
        net@.valid(),
    ensures
        dev_id < old(net).devices@.len() ==> call_requires(
            BaguaNet::get_properties,
            (&*old(net), dev_id, speed),
        ),
        dev_id < old(net).devices@.len() && (old(net).devices@[dev_id as int].addr is Other
            || call_ensures(BaguaNet::has_listen_port, (&*old(net),), true)) ==> call_requires(
            BaguaNet::listen,
            (net, dev_id),
        ),
        call_ensures(BaguaNet::has_storage_port, (&*old(net),), true) ==> call_requires(
            BaguaNet::connect,
            (net, dev_id, peer),
        ),
        old(net).listen_comm_map@.contains_key(id) ==> call_requires(
            BaguaNet::accept,
            (&*old(net), id),
        ),
        old(net).send_comm_map@.contains_key(id) && old(net).socket_request_next_id < usize::MAX
            ==> call_requires(BaguaNet::isend, (net, id, bucket_id, chunk_tag)),
        old(net).recv_comm_map@.contains_key(id) && old(net).socket_request_next_id < usize::MAX
            ==> call_requires(BaguaNet::irecv, (net, id)),
        old(net).socket_request_map@.contains_key(id) ==> call_requires(BaguaNet::test, (net, id)),
        call_ensures(BaguaNet::can_complete_subtask, (&*old(net), id, nbytes), true)
            ==> call_requires(BaguaNet::complete_subtask, (net, id, nbytes)),
        call_requires(BaguaNet::close_send, (net, id)),
        call_requires(BaguaNet::close_recv, (net, id)),
        call_requires(BaguaNet::close_listen, (net, id)),
{
}

} // verus!
