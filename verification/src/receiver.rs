//! Receiving a transfer: its length from the control connection, then its bytes
//! from the data connection.

use vstd::prelude::*;
use crate::reader::ReadTrace;
use crate::wire::decode_len;

verus! {

/// How far a transfer has come.
#[derive(Clone, Copy, Debug, PartialEq, Eq, Structural)]
pub enum ReceiverState {
    /// No buffer was handed in.
    Waiting,
    /// The length is being read.
    ReadingLength,
    /// So many bytes are being read.
    ReadingPayload(usize),
}

/// What happened since the last step.
pub enum ReceiveEvent<'a> {
    /// A buffer was handed in to be filled.
    Requested,
    /// These bytes were read from the control connection.
    LengthRead(&'a [u8]),
    /// The bytes of the transfer are in the buffer.
    PayloadRead,
}

/// What is to be done next.
#[derive(Clone, Copy, Debug, PartialEq, Eq, Structural)]
pub enum ReceiveAction {
    /// Read so many bytes from the control connection.
    ReadLength(usize),
    /// Read so many bytes from the data connection into the buffer.
    ReadPayload(usize),
    /// Count the request as complete, with so many bytes.
    Complete(usize),
}

/// What happened since the last step.
pub enum ReceiveInput {
    Requested,
    LengthRead(Seq<u8>),
    PayloadRead,
}

impl<'a> View for ReceiveEvent<'a> {
    type V = ReceiveInput;

    open spec fn view(&self) -> ReceiveInput {
        match self {
            ReceiveEvent::Requested => ReceiveInput::Requested,
            ReceiveEvent::LengthRead(bytes) => ReceiveInput::LengthRead(bytes@),
            ReceiveEvent::PayloadRead => ReceiveInput::PayloadRead,
        }
    }
}

impl ReceiverState {
    /// Whether an event can happen in a state.
    pub open spec fn expects(self, input: ReceiveInput) -> bool {
        match input {
            ReceiveInput::Requested => self is Waiting,
            ReceiveInput::LengthRead(bytes) => self is ReadingLength && bytes.len()
                == crate::wire::len_width(),
            ReceiveInput::PayloadRead => self is ReadingPayload,
        }
    }

    /// The state that an event leads to.
    pub open spec fn next(self, input: ReceiveInput) -> ReceiverState {
        match input {
            ReceiveInput::Requested => ReceiverState::ReadingLength,
            ReceiveInput::LengthRead(bytes) => ReceiverState::ReadingPayload(
                crate::wire::be_value(bytes) as usize,
            ),
            ReceiveInput::PayloadRead => ReceiverState::Waiting,
        }
    }

    /// What an event makes it ask for: a length, then as many bytes as it
    /// announces, and then the count of these.
    pub open spec fn asks(self, input: ReceiveInput) -> ReceiveAction {
        match input {
            ReceiveInput::Requested => ReceiveAction::ReadLength(crate::wire::len_width() as usize),
            ReceiveInput::LengthRead(bytes) => ReceiveAction::ReadPayload(
                crate::wire::be_value(bytes) as usize,
            ),
            ReceiveInput::PayloadRead => ReceiveAction::Complete(self->ReadingPayload_0),
        }
    }

    /// One step of receiving a transfer.
    pub fn step(&mut self, event: ReceiveEvent) -> (action: ReceiveAction)
        requires
            old(self).expects(event@),
        ensures
            *final(self) == old(self).next(event@),
            action == old(self).asks(event@),
            event matches ReceiveEvent::LengthRead(bytes) ==> {
                &&& action matches ReceiveAction::ReadPayload(n)
                &&& n == crate::wire::be_value(bytes@)
            },
    {
        match event {
            ReceiveEvent::Requested => {
                *self = ReceiverState::ReadingLength;
                ReceiveAction::ReadLength((usize::BITS / 8) as usize)
            },
            ReceiveEvent::LengthRead(bytes) => {
                let n: usize = decode_len(bytes);
                *self = ReceiverState::ReadingPayload(n);
                ReceiveAction::ReadPayload(n)
            },
            ReceiveEvent::PayloadRead => {
                let n: usize = match *self {
                    ReceiverState::ReadingPayload(n) => n,
                    _ => 0,
                };
                *self = ReceiverState::Waiting;
                ReceiveAction::Complete(n)
            },
        }
    }

    /// After several events.
    pub open spec fn after(self, inputs: Seq<ReceiveInput>) -> ReceiverState
        decreases inputs.len(),
    {
        if inputs.len() == 0 {
            self
        } else {
            self.after(inputs.drop_last()).next(inputs.last())
        }
    }

    /// What several events make it ask for, one after the other.
    pub open spec fn actions(self, inputs: Seq<ReceiveInput>) -> Seq<ReceiveAction>
        decreases inputs.len(),
    {
        if inputs.len() == 0 {
            Seq::empty()
        } else {
            self.actions(inputs.drop_last()).push(self.after(inputs.drop_last()).asks(inputs.last()))
        }
    }

    /// Whether several events can happen one after the other.
    pub open spec fn expects_all(self, inputs: Seq<ReceiveInput>) -> bool
        decreases inputs.len(),
    {
        inputs.len() > 0 ==> {
            &&& self.expects_all(inputs.drop_last())
            &&& self.after(inputs.drop_last()).expects(inputs.last())
        }
    }
}

/// The events of receiving a transfer that these bytes announce, from one wait to
/// the next.
pub open spec fn receive_inputs(length: Seq<u8>) -> Seq<ReceiveInput> {
    seq![
        ReceiveInput::Requested,
        ReceiveInput::LengthRead(length),
        ReceiveInput::PayloadRead,
    ]
}

/// What receiving a transfer that these bytes announce asks for.
pub open spec fn receive_actions(length: Seq<u8>) -> Seq<ReceiveAction> {
    ReceiverState::Waiting.actions(receive_inputs(length))
}

/// What several steps count.
pub open spec fn receive_counts(actions: Seq<ReceiveAction>) -> Seq<usize>
    decreases actions.len(),
{
    if actions.len() == 0 {
        Seq::empty()
    } else {
        let before = receive_counts(actions.drop_last());
        match actions.last() {
            ReceiveAction::Complete(nbytes) => before.push(nbytes),
            _ => before,
        }
    }
}

/// A transfer is received in order: its length is read, then as many bytes as it
/// announces, and then these are counted, once. The receiver then waits again.
pub proof fn a_transfer_is_received_in_order(length: Seq<u8>)
    requires
        length.len() == crate::wire::len_width(),
    ensures
        ({
            let n = crate::wire::be_value(length) as usize;
            &&& n == crate::wire::be_value(length)
            &&& ReceiverState::Waiting.expects_all(receive_inputs(length))
            &&& ReceiverState::Waiting.after(receive_inputs(length)) == ReceiverState::Waiting
            &&& receive_actions(length) == seq![
                ReceiveAction::ReadLength(crate::wire::len_width() as usize),
                ReceiveAction::ReadPayload(n),
                ReceiveAction::Complete(n),
            ]
            &&& receive_counts(receive_actions(length)) == seq![n]
        }),
{
    crate::wire::what_is_announced_is_a_length(length);
    let w = ReceiverState::Waiting;
    let n = crate::wire::be_value(length) as usize;
    let i0 = Seq::<ReceiveInput>::empty();
    let i1 = i0.push(ReceiveInput::Requested);
    let i2 = i1.push(ReceiveInput::LengthRead(length));
    let i3 = i2.push(ReceiveInput::PayloadRead);
    assert(i1.drop_last() =~= i0);
    assert(i2.drop_last() =~= i1);
    assert(i3.drop_last() =~= i2);
    assert(receive_inputs(length) =~= i3);
    assert(w.after(i0) == w && w.actions(i0) == Seq::<ReceiveAction>::empty() && w.expects_all(i0));
    assert(w.after(i1) == ReceiverState::ReadingLength && w.expects_all(i1));
    assert(w.after(i2) == ReceiverState::ReadingPayload(n) && w.expects_all(i2));
    assert(w.after(i3) == w && w.expects_all(i3));
    let a1 = w.actions(i0).push(ReceiveAction::ReadLength(crate::wire::len_width() as usize));
    let a2 = a1.push(ReceiveAction::ReadPayload(n));
    let a3 = a2.push(ReceiveAction::Complete(n));
    assert(w.actions(i1) == a1);
    assert(w.actions(i2) == a2);
    assert(w.actions(i3) == a3);
    assert(a1.drop_last() =~= w.actions(i0));
    assert(a2.drop_last() =~= a1);
    assert(a3.drop_last() =~= a2);
    assert(receive_counts(a1) == receive_counts(w.actions(i0)));
    assert(receive_counts(a2) == receive_counts(a1));
    assert(receive_counts(a3) =~= seq![n]);
}

/// A transfer arrives as it was sent. Where the control stream goes on with the
/// length of `data` and the data stream with `data`, reading a length and then
/// that many bytes gives `data`, and both streams then stand behind it, ready
/// for the next transfer.
pub proof fn a_transfer_arrives_as_sent(
    data: Seq<u8>,
    ctrl: ReadTrace,
    ctrl_pending: Seq<u8>,
    ctrl_rest: Seq<u8>,
    payload: ReadTrace,
    payload_pending: Seq<u8>,
    payload_rest: Seq<u8>,
)
    requires
        data.len() <= usize::MAX,
        ctrl.size == crate::wire::len_width(),
        ctrl.complete(ctrl_pending),
        ctrl_pending + crate::reader::joined(ctrl.chunks) == crate::wire::be_bytes(
            data.len(),
            crate::wire::len_width(),
        ) + ctrl_rest,
        payload.size == crate::wire::be_value(ctrl.end(ctrl_pending).out),
        payload.complete(payload_pending),
        payload_pending + crate::reader::joined(payload.chunks) == data + payload_rest,
    ensures
        payload.size == data.len(),
        payload.end(payload_pending).out == data,
        ctrl.end(ctrl_pending).pending == ctrl_rest,
        payload.end(payload_pending).pending == payload_rest,
{
    let length = crate::wire::be_bytes(data.len(), crate::wire::len_width());
    crate::wire::length_survives_the_wire(data.len() as usize);
    crate::reader::a_read_keeps_every_byte(ctrl, ctrl_pending);
    assert((length + ctrl_rest).take(ctrl.size as int) =~= length);
    assert((length + ctrl_rest).skip(ctrl.size as int) =~= ctrl_rest);
    crate::reader::a_read_keeps_every_byte(payload, payload_pending);
    assert((data + payload_rest).take(payload.size as int) =~= data);
    assert((data + payload_rest).skip(payload.size as int) =~= payload_rest);
}

/// What a sender puts on the control connection for several transfers.
pub open spec fn lengths_of(transfers: Seq<Seq<u8>>) -> Seq<u8>
    decreases transfers.len(),
{
    if transfers.len() == 0 {
        Seq::empty()
    } else {
        lengths_of(transfers.drop_last()) + crate::wire::be_bytes(
            transfers.last().len(),
            crate::wire::len_width(),
        )
    }
}

/// What the read with number `i` of several reads delivered, on a connection that
/// was read from the beginning.
pub open spec fn read_number(reads: Seq<ReadTrace>, i: int) -> Seq<u8> {
    reads[i].end(crate::reader::left_over(Seq::empty(), reads.take(i))).out
}

/// Each transfer is received by reading a length and then that many bytes.
pub open spec fn read_by_length(ctrl: Seq<ReadTrace>, payload: Seq<ReadTrace>) -> bool {
    &&& ctrl.len() == payload.len()
    &&& crate::reader::all_complete(Seq::empty(), ctrl)
    &&& crate::reader::all_complete(Seq::empty(), payload)
    &&& forall|i: int|
        0 <= i < ctrl.len() ==> (#[trigger] ctrl[i]).size == crate::wire::len_width()
    &&& forall|i: int|
        0 <= i < payload.len() ==> (#[trigger] payload[i]).size == crate::wire::be_value(
            read_number(ctrl, i),
        )
}

/// What goes before goes in front.
proof fn lemma_streams_grow(transfers: Seq<Seq<u8>>, n: int)
    requires
        0 <= n <= transfers.len(),
    ensures
        lengths_of(transfers.take(n)).is_prefix_of(lengths_of(transfers)),
        crate::reader::joined(transfers.take(n)).is_prefix_of(crate::reader::joined(transfers)),
    decreases transfers.len() - n,
{
    if n < transfers.len() {
        lemma_streams_grow(transfers, n + 1);
        let more = transfers.take(n + 1);
        assert(more.drop_last() =~= transfers.take(n));
        let a = lengths_of(transfers.take(n));
        let b = lengths_of(more);
        let c = lengths_of(transfers);
        assert(a =~= c.subrange(0, a.len() as int)) by {
            assert(a =~= b.subrange(0, a.len() as int));
        }
        let a = crate::reader::joined(transfers.take(n));
        let b = crate::reader::joined(more);
        let c = crate::reader::joined(transfers);
        assert(a =~= c.subrange(0, a.len() as int)) by {
            assert(a =~= b.subrange(0, a.len() as int));
        }
    } else {
        assert(transfers.take(n) =~= transfers);
    }
}

/// Two beginnings of a stream that go on from the same place by the same length
/// go on with the same bytes.
proof fn lemma_same_continuation(s: Seq<u8>, x: Seq<u8>, y: Seq<u8>, t: Seq<u8>)
    requires
        (s + x).is_prefix_of(t),
        (s + y).is_prefix_of(t),
        x.len() == y.len(),
    ensures
        x == y,
{
    assert((s + x) =~= (s + y));
    assert(x =~= (s + x).skip(s.len() as int));
    assert(y =~= (s + y).skip(s.len() as int));
}

/// A beginning of a beginning is a beginning.
proof fn lemma_front_is_prefix(s: Seq<u8>, x: Seq<u8>, t: Seq<u8>)
    requires
        (s + x).is_prefix_of(t),
    ensures
        s.is_prefix_of(t),
{
    assert(s =~= (s + x).subrange(0, s.len() as int));
    assert(s =~= t.subrange(0, s.len() as int));
}

/// What holds of several reads holds of all but the last.
proof fn lemma_all_but_the_last(ctrl: Seq<ReadTrace>, payload: Seq<ReadTrace>)
    requires
        read_by_length(ctrl, payload),
        ctrl.len() > 0,
    ensures
        read_by_length(ctrl.drop_last(), payload.drop_last()),
        forall|i: int|
            0 <= i < ctrl.len() - 1 ==> #[trigger] read_number(payload, i) == read_number(
                payload.drop_last(),
                i,
            ),
{
    let c = ctrl.drop_last();
    let p = payload.drop_last();
    assert forall|i: int| 0 <= i < ctrl.len() - 1 implies #[trigger] read_number(payload, i)
        == read_number(p, i) by {
        assert(p.take(i) =~= payload.take(i));
    }
    assert forall|i: int| 0 <= i < c.len() implies (#[trigger] c[i]).size
        == crate::wire::len_width() by {
        assert(c[i] == ctrl[i]);
    }
    assert forall|i: int| 0 <= i < p.len() implies (#[trigger] p[i]).size == crate::wire::be_value(
        read_number(c, i),
    ) by {
        assert(p[i] == payload[i]);
        assert(c.take(i) =~= ctrl.take(i));
    }
}

/// The last of several reads delivers as many bytes as it asked for, behind what
/// the others delivered.
proof fn lemma_last_read(reads: Seq<ReadTrace>)
    requires
        reads.len() > 0,
        crate::reader::all_complete(Seq::empty(), reads),
    ensures
        crate::reader::delivered(Seq::empty(), reads) == crate::reader::delivered(
            Seq::empty(),
            reads.drop_last(),
        ) + read_number(reads, reads.len() - 1),
        read_number(reads, reads.len() - 1).len() == reads.last().size,
{
    assert(reads.take(reads.len() - 1) =~= reads.drop_last());
    crate::reader::a_read_keeps_every_byte(
        reads.last(),
        crate::reader::left_over(Seq::empty(), reads.drop_last()),
    );
}

/// Transfers arrive as they were sent, where the reads deliver what was sent.
proof fn lemma_transfers_arrive(
    transfers: Seq<Seq<u8>>,
    ctrl: Seq<ReadTrace>,
    payload: Seq<ReadTrace>,
)
    requires
        read_by_length(ctrl, payload),
        ctrl.len() <= transfers.len(),
        forall|i: int| 0 <= i < transfers.len() ==> (#[trigger] transfers[i]).len() <= usize::MAX,
        crate::reader::delivered(Seq::empty(), ctrl).is_prefix_of(lengths_of(transfers)),
        crate::reader::delivered(Seq::empty(), payload).is_prefix_of(
            crate::reader::joined(transfers),
        ),
    ensures
        crate::reader::delivered(Seq::empty(), ctrl) == lengths_of(
            transfers.take(ctrl.len() as int),
        ),
        crate::reader::delivered(Seq::empty(), payload) == crate::reader::joined(
            transfers.take(ctrl.len() as int),
        ),
        forall|i: int| 0 <= i < ctrl.len() ==> #[trigger] read_number(payload, i) == transfers[i],
    decreases ctrl.len(),
{
    let n = ctrl.len() as int;
    if n == 0 {
        assert(transfers.take(0) =~= Seq::empty());
    } else {
        let c = ctrl.drop_last();
        let p = payload.drop_last();
        let ctrl_before = crate::reader::delivered(Seq::empty(), c);
        let payload_before = crate::reader::delivered(Seq::empty(), p);
        let length = read_number(ctrl, n - 1);
        let data = read_number(payload, n - 1);
        let sent = transfers[n - 1];
        let announced = crate::wire::be_bytes(sent.len(), crate::wire::len_width());
        lemma_all_but_the_last(ctrl, payload);
        lemma_last_read(ctrl);
        lemma_last_read(payload);
        lemma_front_is_prefix(ctrl_before, length, lengths_of(transfers));
        lemma_front_is_prefix(payload_before, data, crate::reader::joined(transfers));
        lemma_transfers_arrive(transfers, c, p);
        assert(transfers.take(n).drop_last() =~= transfers.take(n - 1));
        lemma_streams_grow(transfers, n);
        crate::wire::length_survives_the_wire(sent.len() as usize);
        assert(ctrl[n - 1].size == crate::wire::len_width());
        lemma_same_continuation(ctrl_before, length, announced, lengths_of(transfers));
        assert(payload[n - 1].size == sent.len());
        lemma_same_continuation(payload_before, data, sent, crate::reader::joined(transfers));
    }
}

/// Transfers arrive as they were sent, one by one. Where the control connection
/// hands out what was sent on it, the lengths of the transfers, and the data
/// connection the transfers themselves, however either cuts its stream, reading
/// lengths and as many bytes gives each transfer whole and in its turn.
pub proof fn transfers_arrive_as_sent(
    transfers: Seq<Seq<u8>>,
    ctrl: Seq<ReadTrace>,
    payload: Seq<ReadTrace>,
)
    requires
        read_by_length(ctrl, payload),
        ctrl.len() <= transfers.len(),
        forall|i: int| 0 <= i < transfers.len() ==> (#[trigger] transfers[i]).len() <= usize::MAX,
        crate::reader::received(ctrl).is_prefix_of(lengths_of(transfers)),
        crate::reader::received(payload).is_prefix_of(crate::reader::joined(transfers)),
    ensures
        forall|i: int| 0 <= i < ctrl.len() ==> #[trigger] read_number(payload, i) == transfers[i],
{
    crate::reader::reads_deliver_the_stream_in_order(Seq::empty(), ctrl);
    crate::reader::reads_deliver_the_stream_in_order(Seq::empty(), payload);
    let c = crate::reader::delivered(Seq::empty(), ctrl);
    let p = crate::reader::delivered(Seq::empty(), payload);
    let cr = crate::reader::received(ctrl);
    let pr = crate::reader::received(payload);
    assert(Seq::<u8>::empty() + cr =~= cr);
    assert(Seq::<u8>::empty() + pr =~= pr);
    assert(c =~= cr.subrange(0, c.len() as int));
    assert(p =~= pr.subrange(0, p.len() as int));
    assert(c =~= lengths_of(transfers).subrange(0, c.len() as int));
    assert(p =~= crate::reader::joined(transfers).subrange(0, p.len() as int));
    lemma_transfers_arrive(transfers, ctrl, payload);
}

/// How `step` receives a transfer, call by call: it asks for as many bytes as a
/// machine word has, then for as many as these spell, and last for the count of
/// exactly these. Then it waits again.
pub proof fn a_transfer_is_received_call_by_call(
    s1: &mut ReceiverState,
    a1: ReceiveAction,
    s2: &mut ReceiverState,
    length: &[u8],
    a2: ReceiveAction,
    s3: &mut ReceiverState,
    a3: ReceiveAction,
    announced: usize,
)
    requires
        call_ensures(ReceiverState::step, (s1, ReceiveEvent::Requested), a1),
        *final(s1) == *s2,
        call_ensures(ReceiverState::step, (s2, ReceiveEvent::LengthRead(length)), a2),
        call_ensures(decode_len, (length,), announced),
        *final(s2) == *s3,
        call_ensures(ReceiverState::step, (s3, ReceiveEvent::PayloadRead), a3),
    ensures
        a1 matches ReceiveAction::ReadLength(n) && 8 * n == usize::BITS,
        a2 == ReceiveAction::ReadPayload(announced),
        a3 == ReceiveAction::Complete(announced),
        *final(s3) == ReceiverState::Waiting,
        *old(s1) is Waiting ==> call_requires(ReceiverState::step, (s1, ReceiveEvent::Requested)),
        8 * length@.len() == usize::BITS ==> call_requires(
            ReceiverState::step,
            (s2, ReceiveEvent::LengthRead(length)),
        ),
        call_requires(ReceiverState::step, (s3, ReceiveEvent::PayloadRead)),
{
    assert(usize::BITS == 32 || usize::BITS == 64);
}

} // verus!
