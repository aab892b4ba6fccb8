//! Both ends of a communicator together: what one side sends, the other receives,
//! and both are told of it.

use vstd::prelude::*;
use crate::plugin::{NetOp, NetView};
use crate::reader::ReadTrace;
use crate::receiver::ReceiveAction;
use crate::sender::Chunk;
use crate::sending::SendingView;

verus! {

/// What goes from a sender to a receiver.
pub struct Exchange {
    /// The sender when it starts.
    pub sending: SendingView,
    /// The transfers that are sent, one after the other.
    pub chunks: Seq<Chunk>,
    /// The bytes of each transfer.
    pub data: Seq<Seq<u8>>,
    /// The reads from the control connection, one for each transfer received.
    pub ctrl: Seq<ReadTrace>,
    /// The reads from the data connection, one for each transfer received.
    pub payload: Seq<ReadTrace>,
}

/// What a sender puts on the control connection for several transfers.
pub open spec fn ctrl_stream(v: SendingView, chunks: Seq<Chunk>) -> Seq<u8>
    decreases chunks.len(),
{
    if chunks.len() == 0 {
        Seq::empty()
    } else {
        let before = v.after_transfers(chunks.drop_last());
        ctrl_stream(v, chunks.drop_last()) + crate::sending::ctrl_bytes(
            before.steps(before.transfer(chunks.last())),
        )
    }
}

/// What a sender puts on the data connection for several transfers of these bytes.
pub open spec fn data_stream(v: SendingView, chunks: Seq<Chunk>, data: Seq<Seq<u8>>) -> Seq<u8>
    decreases chunks.len(),
{
    if chunks.len() == 0 {
        Seq::empty()
    } else {
        let before = v.after_transfers(chunks.drop_last());
        data_stream(v, chunks.drop_last(), data.drop_last()) + crate::sending::data_bytes(
            before.steps(before.transfer(chunks.last())),
            data.last(),
        )
    }
}

impl Exchange {
    /// The sender starts with nothing under way, and each transfer is one of its
    /// bytes.
    pub open spec fn sent(self) -> bool {
        &&& self.sending.stage is Waiting
        &&& self.chunks.len() == self.data.len()
        &&& forall|i: int|
            0 <= i < self.data.len() ==> (#[trigger] self.chunks[i]).len == self.data[i].len()
    }

    /// The receiver reads what its steps ask for, each time until the read is done.
    pub open spec fn received(self) -> bool {
        &&& self.ctrl.len() == self.payload.len()
        &&& crate::reader::all_done(Seq::empty(), self.ctrl)
        &&& crate::reader::all_done(Seq::empty(), self.payload)
        &&& forall|i: int| 0 <= i < self.ctrl.len() ==> #[trigger] self.read_as_asked(i)
    }

    /// The bytes that announce transfer `i` to the receiver.
    pub open spec fn length(self, i: int) -> Seq<u8> {
        crate::receiver::read_number(self.ctrl, i)
    }

    /// Transfer `i` is received by reading what the steps of the receiver ask for.
    pub open spec fn read_as_asked(self, i: int) -> bool {
        let actions = crate::receiver::receive_actions(self.length(i));
        &&& self.ctrl[i].size == crate::wire::len_width()
        &&& actions[0] == ReceiveAction::ReadLength(self.ctrl[i].size as usize)
        &&& self.payload[i].size <= usize::MAX
        &&& actions[1] == ReceiveAction::ReadPayload(self.payload[i].size as usize)
    }

    /// Both connections hand out what was put on them, in order, and however they
    /// like to cut it.
    pub open spec fn faithful(self) -> bool {
        &&& self.ctrl.len() <= self.data.len()
        &&& crate::reader::received(self.ctrl).is_prefix_of(
            ctrl_stream(self.sending, self.chunks),
        )
        &&& crate::reader::received(self.payload).is_prefix_of(
            data_stream(self.sending, self.chunks, self.data),
        )
    }

    /// What the sender counts for transfer `i`.
    pub open spec fn sender_counts(self, i: int) -> Seq<usize> {
        crate::sending::send_counts(self.sending.steps_of(self.chunks, i))
    }

    /// What the repeater counts for transfer `i`, if it is handed a copy.
    pub open spec fn repeater_counts(self, i: int) -> Seq<usize> {
        if self.sending.forwards(self.chunks[i]) {
            crate::repeater::mirror_counts(
                crate::repeater::mirror_steps(
                    crate::repeater::mirror_events(self.chunks[i].chunk_tag, self.chunks[i].len),
                ),
            )
        } else {
            Seq::empty()
        }
    }

    /// What the receiver counts for transfer `i`.
    pub open spec fn receiver_counts(self, i: int) -> Seq<usize> {
        crate::receiver::receive_counts(crate::receiver::receive_actions(self.length(i)))
    }

    /// The buffer that transfer `i` is read into, once it is read.
    pub open spec fn buffer(self, i: int, buf: Seq<u8>) -> Seq<u8> {
        self.payload[i].buffer(
            crate::reader::left_over(Seq::empty(), self.payload.take(i)),
            buf,
            self.payload[i].chunks.len(),
        )
    }

    /// Whether `ops` count for request `id` what sender and repeater count for
    /// transfer `i`, so far, whichever comes first.
    pub open spec fn counted_by_sender(self, i: int, ops: Seq<NetOp>, id: usize) -> bool {
        let counts = crate::plugin::counts_of(ops, id);
        ||| counts.is_prefix_of(self.sender_counts(i) + self.repeater_counts(i))
        ||| counts.is_prefix_of(self.repeater_counts(i) + self.sender_counts(i))
    }

    /// Whether `ops` count for request `id` what the receiver counts for transfer
    /// `i`, so far.
    pub open spec fn counted_by_receiver(self, i: int, ops: Seq<NetOp>, id: usize) -> bool {
        crate::plugin::counts_of(ops, id).is_prefix_of(self.receiver_counts(i))
    }
}

/// Whether a request tells that it is complete, with `len` bytes.
pub open spec fn complete_with(v: NetView, id: usize, len: int) -> bool {
    &&& v.requests.contains_key(id)
    &&& v.requests[id].state().status() matches Ok((done, nbytes))
    &&& done
    &&& nbytes == len
}

/// Whether a request tells that it is not complete.
pub open spec fn incomplete(v: NetView, id: usize) -> bool {
    &&& v.requests.contains_key(id)
    &&& v.requests[id].state().status() matches Ok((done, _))
    &&& !done
}

/// What a request of `subtasks` subtasks for `len` bytes tells after the first `k`
/// of several operations: it is complete, with `len` bytes, once all its subtasks
/// were counted, and not before; and it is forgotten only after that was told.
pub open spec fn told_rightly(
    v: NetView,
    ops: Seq<NetOp>,
    id: usize,
    subtasks: nat,
    len: int,
    k: int,
) -> bool {
    let now = v.after_all(ops.take(k));
    if now.requests.contains_key(id) {
        if crate::plugin::counts_of(ops.take(k), id).len() == subtasks {
            complete_with(now, id, len)
        } else {
            incomplete(now, id)
        }
    } else {
        exists|j: int|
            0 <= j < k && #[trigger] ops[j] == NetOp::Test(id) && complete_with(
                v.after_all(ops.take(j)),
                id,
                len,
            )
    }
}

proof fn lemma_operations_begin(v: NetView, ops: Seq<NetOp>, id: usize, k: int)
    requires
        v.allows_all(ops),
        0 <= k <= ops.len(),
    ensures
        v.allows_all(ops.take(k)),
        crate::plugin::counts_of(ops.take(k), id).is_prefix_of(crate::plugin::counts_of(ops, id)),
    decreases ops.len(),
{
    if k < ops.len() {
        let init = ops.drop_last();
        lemma_operations_begin(v, init, id, k);
        assert(ops.take(k) =~= init.take(k));
        let a = crate::plugin::counts_of(ops.take(k), id);
        let b = crate::plugin::counts_of(init, id);
        let c = crate::plugin::counts_of(ops, id);
        assert(b =~= c.subrange(0, b.len() as int));
        assert(a =~= c.subrange(0, a.len() as int));
    } else {
        assert(ops.take(k) =~= ops);
    }
}

proof fn lemma_known_is_told_rightly(
    v: NetView,
    ops: Seq<NetOp>,
    id: usize,
    full: Seq<usize>,
    k: int,
)
    requires
        v.valid(),
        v.allows_all(ops),
        v.requests.contains_key(id),
        v.requests[id].state() == crate::request::RequestState::fresh(
            full.len() as usize,
            v.requests[id].state().bucket_id,
            v.requests[id].state().chunk_tag,
        ),
        full.len() <= usize::MAX,
        crate::plugin::counts_of(ops, id).is_prefix_of(full),
        0 <= k <= ops.len(),
        v.after_all(ops.take(k)).requests.contains_key(id),
    ensures
        told_rightly(v, ops, id, full.len(), crate::request::total(full), k),
{
    lemma_operations_begin(v, ops, id, k);
    crate::plugin::a_request_counts_what_is_done_for_it(v, ops.take(k), id);
    let counts = crate::plugin::counts_of(ops.take(k), id);
    assert(counts =~= full.subrange(0, counts.len() as int));
    if counts.len() == full.len() {
        assert(counts =~= full);
    }
}

proof fn lemma_told_rightly(v: NetView, ops: Seq<NetOp>, id: usize, full: Seq<usize>, k: int)
    requires
        v.valid(),
        v.allows_all(ops),
        v.requests.contains_key(id),
        v.requests[id].state() == crate::request::RequestState::fresh(
            full.len() as usize,
            v.requests[id].state().bucket_id,
            v.requests[id].state().chunk_tag,
        ),
        full.len() <= usize::MAX,
        crate::plugin::counts_of(ops, id).is_prefix_of(full),
        0 <= k <= ops.len(),
    ensures
        told_rightly(v, ops, id, full.len(), crate::request::total(full), k),
{
    if v.after_all(ops.take(k)).requests.contains_key(id) {
        lemma_known_is_told_rightly(v, ops, id, full, k);
    } else {
        let some = ops.take(k);
        lemma_operations_begin(v, ops, id, k);
        crate::plugin::a_request_counts_what_is_done_for_it(v, some, id);
        let j = choose|j: int| 0 <= j < some.len() && #[trigger] v.tells_complete(some, id, j);
        assert(some.take(j) =~= ops.take(j));
        lemma_known_is_told_rightly(v, ops, id, full, j);
        assert(ops[j] == NetOp::Test(id));
    }
}

/// What a sender puts on its connections is the lengths of its transfers and their
/// bytes.
proof fn lemma_streams(v: SendingView, chunks: Seq<Chunk>, data: Seq<Seq<u8>>)
    requires
        v.stage is Waiting,
        chunks.len() == data.len(),
        forall|i: int| 0 <= i < data.len() ==> (#[trigger] chunks[i]).len == data[i].len(),
    ensures
        ctrl_stream(v, chunks) == crate::receiver::lengths_of(data),
        data_stream(v, chunks, data) == crate::reader::joined(data),
    decreases chunks.len(),
{
    if chunks.len() > 0 {
        let init = chunks.drop_last();
        assert forall|i: int| 0 <= i < data.drop_last().len() implies (#[trigger] init[i]).len
            == data.drop_last()[i].len() by {
            assert(init[i] == chunks[i]);
        }
        lemma_streams(v, init, data.drop_last());
        crate::sending::a_sender_waits_between_transfers(v, init);
        crate::sending::a_transfer_is_announced_sent_and_counted_once(
            v.after_transfers(init),
            chunks.last(),
            data.last(),
        );
        assert(chunks[chunks.len() - 1].len == data[data.len() - 1].len());
    }
}

proof fn lemma_length_read(reads: Seq<ReadTrace>, i: int)
    requires
        crate::reader::all_complete(Seq::empty(), reads),
        0 <= i < reads.len(),
    ensures
        reads[i].complete(crate::reader::left_over(Seq::empty(), reads.take(i))),
        crate::receiver::read_number(reads, i).len() == reads[i].size,
    decreases reads.len(),
{
    let init = reads.drop_last();
    if i < init.len() {
        lemma_length_read(init, i);
        assert(init.take(i) =~= reads.take(i));
        assert(init[i] == reads[i]);
    } else {
        assert(reads.take(i) =~= init);
        crate::reader::a_read_keeps_every_byte(
            reads[i],
            crate::reader::left_over(Seq::empty(), init),
        );
    }
}

/// What is received is what was sent.
proof fn lemma_arrives(x: Exchange, i: int)
    requires
        x.sent(),
        x.received(),
        x.faithful(),
        0 <= i < x.ctrl.len(),
    ensures
        crate::receiver::read_number(x.payload, i) == x.data[i],
        x.payload[i].size == x.data[i].len(),
        x.receiver_counts(i) == seq![x.data[i].len() as usize],
        x.data[i].len() <= usize::MAX,
{
    lemma_streams(x.sending, x.chunks, x.data);
    crate::reader::reads_that_are_done_are_complete(Seq::empty(), x.ctrl);
    crate::reader::reads_that_are_done_are_complete(Seq::empty(), x.payload);
    assert forall|j: int| 0 <= j < x.ctrl.len() implies (#[trigger] x.ctrl[j]).size
        == crate::wire::len_width() by {
        assert(x.read_as_asked(j));
    }
    assert forall|j: int| 0 <= j < x.payload.len() implies (#[trigger] x.payload[j]).size
        == crate::wire::be_value(crate::receiver::read_number(x.ctrl, j)) by {
        assert(x.read_as_asked(j));
        lemma_length_read(x.ctrl, j);
        crate::receiver::a_transfer_is_received_in_order(x.length(j));
    }
    assert forall|j: int| 0 <= j < x.data.len() implies (#[trigger] x.data[j]).len()
        <= usize::MAX by {
        assert(x.chunks[j].len == x.data[j].len());
    }
    crate::receiver::transfers_arrive_as_sent(x.data, x.ctrl, x.payload);
    lemma_length_read(x.ctrl, i);
    lemma_length_read(x.payload, i);
    crate::receiver::a_transfer_is_received_in_order(x.length(i));
    assert(crate::receiver::read_number(x.payload, i) == x.data[i]);
    assert(x.read_as_asked(i));
}

/// The counts for a transfer are one for its bytes and, if it is mirrored, one for
/// no bytes.
proof fn lemma_sender_counts(x: Exchange, i: int)
    requires
        x.sent(),
        0 <= i < x.data.len(),
    ensures
        x.sender_counts(i) == seq![x.chunks[i].len],
        x.repeater_counts(i) == if x.sending.forwards(x.chunks[i]) {
            seq![0usize]
        } else {
            Seq::<usize>::empty()
        },
        crate::request::total(x.sender_counts(i) + x.repeater_counts(i)) == x.chunks[i].len,
        crate::request::total(x.repeater_counts(i) + x.sender_counts(i)) == x.chunks[i].len,
{
    crate::sending::a_sender_waits_between_transfers(x.sending, x.chunks.take(i));
    crate::sending::a_transfer_is_announced_sent_and_counted_once(
        x.sending.after_transfers(x.chunks.take(i)),
        x.chunks[i],
        x.data[i],
    );
    crate::repeater::a_chunk_is_mirrored_in_order(x.chunks[i].chunk_tag, x.chunks[i].len);
    let len = x.chunks[i].len;
    reveal_with_fuel(crate::request::total, 3);
    assert(seq![len].drop_last() =~= Seq::<usize>::empty());
    assert(seq![0usize].drop_last() =~= Seq::<usize>::empty());
    if x.sending.forwards(x.chunks[i]) {
        assert((seq![len] + seq![0usize]).drop_last() =~= seq![len]);
        assert((seq![0usize] + seq![len]).drop_last() =~= seq![0usize]);
    } else {
        assert(seq![len] + Seq::<usize>::empty() =~= seq![len]);
        assert(Seq::<usize>::empty() + seq![len] =~= seq![len]);
    }
}

/// A round trip. One side opens a request to send for transfer `i` and its sender
/// sends what is handed to it, transfer by transfer; the other side opens a request
/// to receive, and its receiver reads, into a buffer that is long enough, what its
/// steps ask for. Whatever else is done on either side, and however the connections
/// cut their streams:
/// - the buffer then begins with the bytes of the transfer, and is else as it was;
/// - the request to receive tells that it is complete, with the length of the
///   transfer, once the receiver has counted it, and not before;
/// - the request to send tells that it is complete, with the length of the
///   transfer, once the sender and, if the transfer is mirrored, the repeater have
///   counted it, and not before;
/// - neither is forgotten before that was told.
pub proof fn what_is_sent_is_received_and_told(
    x: Exchange,
    i: int,
    buf: Seq<u8>,
    sender: NetView,
    sender_ops: Seq<NetOp>,
    receiver: NetView,
    receiver_ops: Seq<NetOp>,
    k: int,
)
    requires
        x.sent(),
        x.received(),
        x.faithful(),
        0 <= i < x.ctrl.len(),
        x.data[i].len() <= buf.len(),
        sender.valid(),
        sender.storage == x.sending.storage,
        sender.request_next < usize::MAX,
        sender.after(NetOp::Isend(x.chunks[i].bucket_id, x.chunks[i].chunk_tag)).allows_all(
            sender_ops,
        ),
        x.counted_by_sender(i, sender_ops, sender.request_next as usize),
        receiver.valid(),
        receiver.request_next < usize::MAX,
        receiver.after(NetOp::Irecv).allows_all(receiver_ops),
        x.counted_by_receiver(i, receiver_ops, receiver.request_next as usize),
    ensures
        x.buffer(i, buf) == x.data[i] + buf.skip(x.data[i].len() as int),
        0 <= k <= receiver_ops.len() ==> told_rightly(
            receiver.after(NetOp::Irecv),
            receiver_ops,
            receiver.request_next as usize,
            1,
            x.data[i].len() as int,
            k,
        ),
        0 <= k <= sender_ops.len() ==> told_rightly(
            sender.after(NetOp::Isend(x.chunks[i].bucket_id, x.chunks[i].chunk_tag)),
            sender_ops,
            sender.request_next as usize,
            if x.sending.forwards(x.chunks[i]) {
                2
            } else {
                1
            },
            x.data[i].len() as int,
            k,
        ),
{
    lemma_arrives(x, i);
    crate::reader::reads_that_are_done_are_complete(Seq::empty(), x.payload);
    lemma_length_read(x.payload, i);
    let pending = crate::reader::left_over(Seq::empty(), x.payload.take(i));
    crate::reader::a_read_leaves_the_rest_of_its_buffer(
        x.payload[i],
        pending,
        buf,
        x.payload[i].chunks.len(),
    );
    let len = x.data[i].len() as usize;
    assert(crate::request::total(seq![len]) == len) by {
        reveal_with_fuel(crate::request::total, 2);
        assert(seq![len].drop_last() =~= Seq::<usize>::empty());
    }
    if 0 <= k <= receiver_ops.len() {
        lemma_told_rightly(
            receiver.after(NetOp::Irecv),
            receiver_ops,
            receiver.request_next as usize,
            seq![len],
            k,
        );
    }
    if 0 <= k <= sender_ops.len() {
        lemma_sender_counts(x, i);
        let id = sender.request_next as usize;
        let v = sender.after(NetOp::Isend(x.chunks[i].bucket_id, x.chunks[i].chunk_tag));
        let a = x.sender_counts(i);
        let b = x.repeater_counts(i);
        if crate::plugin::counts_of(sender_ops, id).is_prefix_of(a + b) {
            lemma_told_rightly(v, sender_ops, id, a + b, k);
        } else {
            lemma_told_rightly(v, sender_ops, id, b + a, k);
        }
    }
}

} // verus!
