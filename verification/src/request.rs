//! Requests and how far they have come.

use vstd::prelude::*;
use crate::interface::BaguaNetError;
use crate::sender::{is_tagged, Chunk};

verus! {

/// How far a request has come.
#[derive(Debug)]
pub struct RequestState {
    pub nsubtasks: usize,
    pub completed_subtasks: usize,
    pub nbytes_transferred: usize,
    pub bucket_id: i32,
    pub chunk_tag: i32,
    pub err: Option<BaguaNetError>,
}

impl RequestState {
    /// A request of which nothing was done.
    pub open spec fn fresh(nsubtasks: usize, bucket_id: i32, chunk_tag: i32) -> RequestState {
        RequestState {
            nsubtasks,
            completed_subtasks: 0,
            nbytes_transferred: 0,
            bucket_id,
            chunk_tag,
            err: None,
        }
    }

    /// A request to send. Where the transfer is mirrored too, that is a subtask
    /// of its own.
    pub open spec fn to_send(storage: bool, bucket_id: i32, chunk_tag: i32) -> RequestState {
        let mirrored = storage && (Chunk { bucket_id, chunk_tag, len: 0 }).tagged();
        RequestState::fresh(
            if mirrored {
                2
            } else {
                1
            },
            bucket_id,
            chunk_tag,
        )
    }

    /// A request to receive.
    pub open spec fn to_receive() -> RequestState {
        RequestState::fresh(1, 0, 0)
    }

    /// Whether one more subtask, with so many bytes, can be counted.
    pub open spec fn countable(self, nbytes: usize) -> bool {
        self.completed_subtasks < usize::MAX && self.nbytes_transferred + nbytes <= usize::MAX
    }

    /// The request after one more subtask, which moved so many bytes.
    pub open spec fn after_subtask(self, nbytes: usize) -> RequestState {
        RequestState {
            completed_subtasks: (self.completed_subtasks + 1) as usize,
            nbytes_transferred: (self.nbytes_transferred + nbytes) as usize,
            ..self
        }
    }

    /// The request after several subtasks, which moved so many bytes each.
    pub open spec fn after_subtasks(self, counts: Seq<usize>) -> RequestState
        decreases counts.len(),
    {
        if counts.len() == 0 {
            self
        } else {
            self.after_subtasks(counts.drop_last()).after_subtask(counts.last())
        }
    }

    /// What is told of the request: its error, or whether it is complete and how
    /// many bytes it moved.
    pub open spec fn status(self) -> Result<(bool, usize), BaguaNetError> {
        match self.err {
            Some(e) => Err(e),
            None => Ok((self.nsubtasks == self.completed_subtasks, self.nbytes_transferred)),
        }
    }

    /// The transfer that the request is for, if it is one of `len` bytes.
    pub open spec fn transfer(self, len: usize) -> Chunk {
        Chunk { bucket_id: self.bucket_id, chunk_tag: self.chunk_tag, len }
    }

    /// The transfer that the request is for, if it is one of `len` bytes.
    pub fn chunk(&self, len: usize) -> (chunk: Chunk)
        ensures
            chunk == self.transfer(len),
    {
        Chunk { bucket_id: self.bucket_id, chunk_tag: self.chunk_tag, len }
    }

    /// Whether one more subtask, with so many bytes, can be counted.
    pub fn can_complete_subtask(&self, nbytes: usize) -> (r: bool)
        ensures
            r == self.countable(nbytes),
    {
        self.completed_subtasks < usize::MAX && nbytes <= usize::MAX - self.nbytes_transferred
    }

    /// A request to send.
    pub fn new_send(storage: bool, bucket_id: i32, chunk_tag: i32) -> (s: RequestState)
        ensures
            s == RequestState::to_send(storage, bucket_id, chunk_tag),
    {
        let mut nsubtasks: usize = 1;
        if storage && is_tagged(bucket_id, chunk_tag) {
            nsubtasks = 2;
        }
        RequestState {
            nsubtasks,
            completed_subtasks: 0,
            nbytes_transferred: 0,
            bucket_id,
            chunk_tag,
            err: None,
        }
    }

    /// A request to receive.
    pub fn new_recv() -> (s: RequestState)
        ensures
            s == RequestState::to_receive(),
    {
        RequestState {
            nsubtasks: 1,
            completed_subtasks: 0,
            nbytes_transferred: 0,
            bucket_id: 0,
            chunk_tag: 0,
            err: None,
        }
    }

    /// Counts a subtask that moved so many bytes.
    pub fn complete_subtask(&mut self, nbytes: usize)
        requires
            old(self).countable(nbytes),
        ensures
            *final(self) == old(self).after_subtask(nbytes),
    {
        self.completed_subtasks += 1;
        self.nbytes_transferred += nbytes;
    }

    /// Tells how far the request has come.
    pub fn test(&self) -> (r: Result<(bool, usize), BaguaNetError>)
        ensures
            r == self.status(),
    {
        if let Some(err) = &self.err {
            return Err(err.clone());
        }
        Ok((self.nsubtasks == self.completed_subtasks, self.nbytes_transferred))
    }
}

/// A request to send.
#[derive(Debug)]
pub struct SocketSendRequest {
    pub state: RequestState,
}

/// A request to receive.
#[derive(Debug)]
pub struct SocketRecvRequest {
    pub state: RequestState,
}

/// A request.
#[derive(Debug)]
pub enum SocketRequest {
    SendRequest(SocketSendRequest),
    RecvRequest(SocketRecvRequest),
}

impl SocketRequest {
    /// How far the request has come.
    pub open spec fn state(self) -> RequestState {
        match self {
            SocketRequest::SendRequest(send_req) => send_req.state,
            SocketRequest::RecvRequest(recv_req) => recv_req.state,
        }
    }

    /// The request with another state.
    pub open spec fn with_state(self, state: RequestState) -> SocketRequest {
        match self {
            SocketRequest::SendRequest(_) => SocketRequest::SendRequest(
                SocketSendRequest { state },
            ),
            SocketRequest::RecvRequest(_) => SocketRequest::RecvRequest(
                SocketRecvRequest { state },
            ),
        }
    }
}

/// All the bytes that several subtasks moved.
pub open spec fn total(counts: Seq<usize>) -> int
    decreases counts.len(),
{
    if counts.len() == 0 {
        0
    } else {
        total(counts.drop_last()) + counts.last()
    }
}

/// A request to send is complete once the sender is through with it and, if the
/// sender hands it on to be mirrored, the repeater is too, whichever comes first;
/// not before. It then tells the length of what was sent.
pub proof fn a_send_completes_with_its_subtasks(
    storage: bool,
    bucket_id: i32,
    chunk_tag: i32,
    len: usize,
)
    ensures
        ({
            let s = RequestState::to_send(storage, bucket_id, chunk_tag);
            let sent = s.after_subtask(len);
            let mirrored = storage && s.transfer(len).tagged();
            &&& s.status() == Ok::<(bool, usize), BaguaNetError>((false, 0))
            &&& sent.status() == Ok::<(bool, usize), BaguaNetError>((!mirrored, len))
            &&& mirrored ==> {
                &&& s.after_subtask(0).status() == Ok::<(bool, usize), BaguaNetError>((false, 0))
                &&& sent.after_subtask(0).status() == Ok::<(bool, usize), BaguaNetError>(
                    (true, len),
                )
                &&& s.after_subtask(0).after_subtask(len).status() == Ok::<
                    (bool, usize),
                    BaguaNetError,
                >((true, len))
            }
        }),
{
}

/// A request to receive is complete once its transfer has arrived, and tells how
/// many bytes that was.
pub proof fn a_receive_completes_with_its_transfer(nbytes: usize)
    ensures
        RequestState::to_receive().status() == Ok::<(bool, usize), BaguaNetError>((false, 0)),
        RequestState::to_receive().after_subtask(nbytes).status() == Ok::<
            (bool, usize),
            BaguaNetError,
        >((true, nbytes)),
{
}

/// A request to send is opened with the bucket and the tag that it was given, with
/// nothing done and no error; it takes two subtasks if there is storage, the tag is
/// not negative and the bucket is not zero, and else one.
pub proof fn what_a_send_is_opened_with(
    storage: bool,
    bucket_id: i32,
    chunk_tag: i32,
    s: RequestState,
)
    requires
        call_ensures(RequestState::new_send, (storage, bucket_id, chunk_tag), s),
    ensures
        s.nsubtasks == if storage && bucket_id != 0 && chunk_tag >= 0 {
            2
        } else {
            1int
        },
        s.completed_subtasks == 0,
        s.nbytes_transferred == 0,
        s.bucket_id == bucket_id,
        s.chunk_tag == chunk_tag,
        s.err is None,
{
}

/// A request to receive is opened with one subtask, with nothing done and no error.
pub proof fn what_a_receive_is_opened_with(s: RequestState)
    requires
        call_ensures(RequestState::new_recv, (), s),
    ensures
        s.nsubtasks == 1,
        s.completed_subtasks == 0,
        s.nbytes_transferred == 0,
        s.bucket_id == 0,
        s.chunk_tag == 0,
        s.err is None,
{
}

/// A subtask counts once, and all its bytes count; nothing else changes.
pub proof fn a_subtask_counts_once_with_all_its_bytes(s: &mut RequestState, nbytes: usize)
    requires
        s.completed_subtasks < usize::MAX,
        s.nbytes_transferred + nbytes <= usize::MAX,
        call_ensures(RequestState::complete_subtask, (s, nbytes), ()),
    ensures
        final(s).completed_subtasks == old(s).completed_subtasks + 1,
        final(s).nbytes_transferred == old(s).nbytes_transferred + nbytes,
        final(s).nsubtasks == old(s).nsubtasks,
        final(s).bucket_id == old(s).bucket_id,
        final(s).chunk_tag == old(s).chunk_tag,
        final(s).err == old(s).err,
{
}

/// A subtask can be counted exactly if the number of subtasks and that of bytes
/// stay within range.
pub proof fn what_can_be_counted(
    s: &RequestState,
    nbytes: usize,
    r: bool,
    same: &mut RequestState,
)
    requires
        call_ensures(RequestState::can_complete_subtask, (s, nbytes), r),
        *same == *s,
    ensures
        r ==> call_requires(RequestState::complete_subtask, (same, nbytes)),
        r <==> s.completed_subtasks + 1 <= usize::MAX && s.nbytes_transferred + nbytes
            <= usize::MAX,
{
}

/// A request with an error tells the error. Another one tells the bytes that were
/// counted, and that it is complete exactly if as many subtasks were counted as it
/// takes.
pub proof fn what_a_request_tells(s: &RequestState, r: Result<(bool, usize), BaguaNetError>)
    requires
        call_ensures(RequestState::test, (s,), r),
    ensures
        s.err matches Some(e) ==> r == Err::<(bool, usize), BaguaNetError>(e),
        s.err is None ==> r is Ok && r->Ok_0.1 == s.nbytes_transferred && (r->Ok_0.0
            <==> s.completed_subtasks == s.nsubtasks),
{
}

/// The transfer of a request has its bucket, its tag and the length that is asked
/// for.
pub proof fn what_a_request_transfers(s: &RequestState, len: usize, chunk: Chunk)
    requires
        call_ensures(RequestState::chunk, (s, len), chunk),
    ensures
        chunk.bucket_id == s.bucket_id,
        chunk.chunk_tag == s.chunk_tag,
        chunk.len == len,
{
}

} // verus!
