//! The steps of sending a transfer: its length, its bytes, a copy of it to be
//! mirrored, and then its count.

use vstd::prelude::*;
use crate::sender::{is_tagged, Chunk, Marks, SenderState, SenderView};

verus! {

/// How far a transfer has come.
#[derive(Clone, Copy, Debug, PartialEq, Eq, Structural)]
pub enum SendStage {
    /// No transfer was handed in.
    Waiting,
    /// The length of the transfer is being written; its bytes will have these
    /// marks.
    WritingLength(Chunk, Marks),
    /// The bytes of the transfer are being written.
    WritingPayload(Chunk),
    /// A copy of the transfer is being handed to the repeater.
    Forwarding(Chunk),
}

/// What happened since the last step.
#[derive(Clone, Copy, Debug, PartialEq, Eq, Structural)]
pub enum SendEvent {
    /// A transfer was handed in.
    Requested(Chunk),
    /// The length was written to the control connection.
    LengthWritten,
    /// The bytes were written to the data connection.
    PayloadWritten,
    /// The repeater has the copy.
    Forwarded,
}

/// What is to be done next.
#[derive(Debug)]
pub enum SendAction {
    /// Write these bytes to the control connection with these marks.
    WriteLength(Vec<u8>, Marks),
    /// Write the bytes of the transfer to the data connection with these marks.
    WritePayload(Marks),
    /// Hand the repeater a copy for this offset.
    Forward(i32),
    /// Count a subtask of the request, with so many bytes.
    Complete(usize),
}

/// What a step asks for.
pub enum SendStep {
    Length(Seq<u8>, Marks),
    Payload(Marks),
    Forward(i32),
    Complete(usize),
}

impl View for SendAction {
    type V = SendStep;

    open spec fn view(&self) -> SendStep {
        match self {
            SendAction::WriteLength(bytes, marks) => SendStep::Length(bytes@, *marks),
            SendAction::WritePayload(marks) => SendStep::Payload(*marks),
            SendAction::Forward(chunk_offset) => SendStep::Forward(*chunk_offset),
            SendAction::Complete(nbytes) => SendStep::Complete(*nbytes),
        }
    }
}

/// A sender at work.
#[derive(Debug)]
pub struct Sending {
    pub state: SenderState,
    /// Whether tagged transfers are mirrored.
    pub storage: bool,
    pub stage: SendStage,
}

/// A sender at work.
#[verifier::ext_equal]
pub struct SendingView {
    /// The sender once the transfer under way is through.
    pub sender: SenderView,
    pub storage: bool,
    pub stage: SendStage,
}

impl View for Sending {
    type V = SendingView;

    open spec fn view(&self) -> SendingView {
        SendingView { sender: self.state.pending(), storage: self.storage, stage: self.stage }
    }
}

impl SendingView {
    /// Whether a transfer is mirrored.
    pub open spec fn forwards(self, chunk: Chunk) -> bool {
        self.storage && chunk.tagged()
    }

    /// Whether an event can happen now.
    pub open spec fn expects(self, event: SendEvent) -> bool {
        match event {
            SendEvent::Requested(chunk) => {
                &&& self.stage is Waiting
                &&& self.sender.offsets.len() > 0
                &&& self.sender.room_for(chunk)
            },
            SendEvent::LengthWritten => self.stage is WritingLength,
            SendEvent::PayloadWritten => self.stage is WritingPayload,
            SendEvent::Forwarded => self.stage is Forwarding,
        }
    }

    /// After an event.
    pub open spec fn next(self, event: SendEvent) -> SendingView {
        match (event, self.stage) {
            (SendEvent::Requested(chunk), _) => SendingView {
                sender: self.sender.after(chunk),
                stage: SendStage::WritingLength(chunk, self.sender.marks(chunk)),
                ..self
            },
            (SendEvent::LengthWritten, SendStage::WritingLength(chunk, _)) => SendingView {
                stage: SendStage::WritingPayload(chunk),
                ..self
            },
            (SendEvent::PayloadWritten, SendStage::WritingPayload(chunk)) => SendingView {
                stage: if self.forwards(chunk) {
                    SendStage::Forwarding(chunk)
                } else {
                    SendStage::Waiting
                },
                ..self
            },
            _ => SendingView { stage: SendStage::Waiting, ..self },
        }
    }

    /// What an event makes it ask for: the length goes first and unmarked, then
    /// the marked bytes, then the copy if there is one, and the count comes last.
    pub open spec fn step(self, event: SendEvent) -> SendStep {
        match (event, self.stage) {
            (SendEvent::Requested(chunk), _) => SendStep::Length(
                crate::wire::be_bytes(chunk.len as nat, crate::wire::len_width()),
                crate::sender::no_marks(),
            ),
            (SendEvent::LengthWritten, SendStage::WritingLength(_, marks)) => SendStep::Payload(
                marks,
            ),
            (SendEvent::PayloadWritten, SendStage::WritingPayload(chunk)) => if self.forwards(
                chunk,
            ) {
                SendStep::Forward(chunk.chunk_tag)
            } else {
                SendStep::Complete(chunk.len)
            },
            (SendEvent::Forwarded, SendStage::Forwarding(chunk)) => SendStep::Complete(chunk.len),
            _ => SendStep::Complete(0),
        }
    }
}

impl Sending {
    /// Between transfers and while a copy is handed on, nothing is pending.
    pub open spec fn valid(self) -> bool {
        match self.stage {
            SendStage::Waiting => self.state.idle(),
            SendStage::WritingLength(_, _) => self.state.in_flight(),
            SendStage::WritingPayload(_) => self.state.in_flight(),
            SendStage::Forwarding(_) => self.state.idle(),
        }
    }

    /// A sender that waits for its next transfer.
    pub fn new(state: SenderState, storage: bool) -> (s: Sending)
        requires
            state.idle(),
        ensures
            s.valid(),
            s.state == state,
            s@ == (SendingView { sender: state@, storage, stage: SendStage::Waiting }),
    {
        Sending { state, storage, stage: SendStage::Waiting }
    }

    /// Whether a transfer can be handed in now.
    pub fn accepts(&self, chunk: Chunk) -> (r: bool)
        requires
            self.valid(),
        ensures
            r == self@.expects(SendEvent::Requested(chunk)),
    {
        match self.stage {
            SendStage::Waiting => self.state.num_storage > 0 && self.state.has_room_for(chunk),
            _ => false,
        }
    }

    /// One step of sending. The offset of the storage server moves on once the
    /// bytes are written.
    pub fn step(&mut self, event: SendEvent) -> (action: SendAction)
        requires
            old(self).valid(),
            old(self)@.expects(event),
        ensures
            final(self).valid(),
            final(self).state.num_storage == old(self).state.num_storage,
            final(self)@ == old(self)@.next(event),
            action@ == old(self)@.step(event),
            final(self).state.reduced_byte_offsets@ == if event is PayloadWritten {
                old(self).state.next_reduced_byte_offsets@
            } else {
                old(self).state.reduced_byte_offsets@
            },
    {
        match event {
            SendEvent::Requested(chunk) => {
                let plan = self.state.begin(chunk, self.storage);
                self.stage = SendStage::WritingLength(chunk, plan.marks);
                SendAction::WriteLength(plan.length, plan.length_marks)
            },
            SendEvent::LengthWritten => match self.stage {
                SendStage::WritingLength(chunk, marks) => {
                    self.stage = SendStage::WritingPayload(chunk);
                    SendAction::WritePayload(marks)
                },
                _ => SendAction::Complete(0),
            },
            SendEvent::PayloadWritten => match self.stage {
                SendStage::WritingPayload(chunk) => {
                    self.state.finish();
                    if self.storage && is_tagged(chunk.bucket_id, chunk.chunk_tag) {
                        self.stage = SendStage::Forwarding(chunk);
                        SendAction::Forward(chunk.chunk_tag)
                    } else {
                        self.stage = SendStage::Waiting;
                        SendAction::Complete(chunk.len)
                    }
                },
                _ => SendAction::Complete(0),
            },
            SendEvent::Forwarded => match self.stage {
                SendStage::Forwarding(chunk) => {
                    self.stage = SendStage::Waiting;
                    SendAction::Complete(chunk.len)
                },
                _ => SendAction::Complete(0),
            },
        }
    }
}

impl SendingView {
    /// After several events.
    pub open spec fn after(self, events: Seq<SendEvent>) -> SendingView
        decreases events.len(),
    {
        if events.len() == 0 {
            self
        } else {
            self.after(events.drop_last()).next(events.last())
        }
    }

    /// What several events make it ask for, one after the other.
    pub open spec fn steps(self, events: Seq<SendEvent>) -> Seq<SendStep>
        decreases events.len(),
    {
        if events.len() == 0 {
            Seq::empty()
        } else {
            self.steps(events.drop_last()).push(self.after(events.drop_last()).step(events.last()))
        }
    }

    /// Whether several events can happen one after the other.
    pub open spec fn expects_all(self, events: Seq<SendEvent>) -> bool
        decreases events.len(),
    {
        events.len() > 0 ==> {
            &&& self.expects_all(events.drop_last())
            &&& self.after(events.drop_last()).expects(events.last())
        }
    }

    /// The events of a transfer, from one wait to the next.
    pub open spec fn transfer(self, chunk: Chunk) -> Seq<SendEvent> {
        let written = seq![
            SendEvent::Requested(chunk),
            SendEvent::LengthWritten,
            SendEvent::PayloadWritten,
        ];
        if self.forwards(chunk) {
            written.push(SendEvent::Forwarded)
        } else {
            written
        }
    }

    /// After several transfers.
    pub open spec fn after_transfers(self, chunks: Seq<Chunk>) -> SendingView
        decreases chunks.len(),
    {
        if chunks.len() == 0 {
            self
        } else {
            let before = self.after_transfers(chunks.drop_last());
            before.after(before.transfer(chunks.last()))
        }
    }

    /// What the transfer with number `i` of several transfers asks for.
    pub open spec fn steps_of(self, chunks: Seq<Chunk>, i: int) -> Seq<SendStep> {
        let before = self.after_transfers(chunks.take(i));
        before.steps(before.transfer(chunks[i]))
    }
}

/// A transfer is sent in order: its length without marks, its bytes with theirs,
/// a copy to the repeater if it is mirrored, and then one count of its bytes. Each
/// event can happen if the first one can, and the sender then waits again.
pub proof fn a_transfer_is_sent_in_order(v: SendingView, chunk: Chunk)
    requires
        v.stage is Waiting,
    ensures
        ({
            let length = crate::wire::be_bytes(chunk.len as nat, crate::wire::len_width());
            let written = seq![
                SendStep::Length(length, crate::sender::no_marks()),
                SendStep::Payload(v.sender.marks(chunk)),
            ];
            &&& v.expects(SendEvent::Requested(chunk)) ==> v.expects_all(v.transfer(chunk))
            &&& v.steps(v.transfer(chunk)) == if v.forwards(chunk) {
                written.push(SendStep::Forward(chunk.chunk_tag)).push(
                    SendStep::Complete(chunk.len),
                )
            } else {
                written.push(SendStep::Complete(chunk.len))
            }
            &&& v.after(v.transfer(chunk)) == (SendingView { sender: v.sender.after(chunk), ..v })
        }),
{
    let events = v.transfer(chunk);
    let e0 = Seq::<SendEvent>::empty();
    let e1 = e0.push(SendEvent::Requested(chunk));
    let e2 = e1.push(SendEvent::LengthWritten);
    let e3 = e2.push(SendEvent::PayloadWritten);
    let e4 = e3.push(SendEvent::Forwarded);
    assert(v.after(e0) == v && v.steps(e0) == Seq::<SendStep>::empty() && v.expects_all(e0));
    assert(e1.drop_last() =~= e0);
    assert(e2.drop_last() =~= e1);
    assert(e3.drop_last() =~= e2);
    assert(e4.drop_last() =~= e3);
    assert(events =~= if v.forwards(chunk) {
        e4
    } else {
        e3
    });
    assert(v.after(e1) == v.next(SendEvent::Requested(chunk)));
    assert(v.after(e2) == v.after(e1).next(SendEvent::LengthWritten));
    assert(v.after(e3) == v.after(e2).next(SendEvent::PayloadWritten));
    assert(v.after(e4) == v.after(e3).next(SendEvent::Forwarded));
    assert(v.steps(e1) == v.steps(e0).push(v.step(SendEvent::Requested(chunk))));
    assert(v.steps(e2) == v.steps(e1).push(v.after(e1).step(SendEvent::LengthWritten)));
    assert(v.steps(e3) == v.steps(e2).push(v.after(e2).step(SendEvent::PayloadWritten)));
    assert(v.steps(e4) == v.steps(e3).push(v.after(e3).step(SendEvent::Forwarded)));
    if v.expects(SendEvent::Requested(chunk)) {
        assert(v.expects_all(e1));
        assert(v.expects_all(e2));
        assert(v.expects_all(e3));
    }
}

/// After several transfers a sender waits, and the state of its servers is what
/// the transfers make of it.
pub proof fn a_sender_waits_between_transfers(v: SendingView, chunks: Seq<Chunk>)
    requires
        v.stage is Waiting,
    ensures
        v.after_transfers(chunks) == (SendingView { sender: v.sender.after_all(chunks), ..v }),
    decreases chunks.len(),
{
    if chunks.len() > 0 {
        a_sender_waits_between_transfers(v, chunks.drop_last());
        a_transfer_is_sent_in_order(v.after_transfers(chunks.drop_last()), chunks.last());
    }
}

/// The bytes that several steps put on the control connection.
pub open spec fn ctrl_bytes(steps: Seq<SendStep>) -> Seq<u8>
    decreases steps.len(),
{
    if steps.len() == 0 {
        Seq::empty()
    } else {
        let before = ctrl_bytes(steps.drop_last());
        match steps.last() {
            SendStep::Length(bytes, _) => before + bytes,
            _ => before,
        }
    }
}

/// The bytes that several steps of a transfer of `data` put on the data
/// connection.
pub open spec fn data_bytes(steps: Seq<SendStep>, data: Seq<u8>) -> Seq<u8>
    decreases steps.len(),
{
    if steps.len() == 0 {
        Seq::empty()
    } else {
        let before = data_bytes(steps.drop_last(), data);
        match steps.last() {
            SendStep::Payload(_) => before + data,
            _ => before,
        }
    }
}

/// What several steps count.
pub open spec fn send_counts(steps: Seq<SendStep>) -> Seq<usize>
    decreases steps.len(),
{
    if steps.len() == 0 {
        Seq::empty()
    } else {
        let before = send_counts(steps.drop_last());
        match steps.last() {
            SendStep::Complete(nbytes) => before.push(nbytes),
            _ => before,
        }
    }
}

proof fn lemma_one_more_step(steps: Seq<SendStep>, step: SendStep, data: Seq<u8>)
    ensures
        ctrl_bytes(steps.push(step)) == match step {
            SendStep::Length(bytes, _) => ctrl_bytes(steps) + bytes,
            _ => ctrl_bytes(steps),
        },
        data_bytes(steps.push(step), data) == match step {
            SendStep::Payload(_) => data_bytes(steps, data) + data,
            _ => data_bytes(steps, data),
        },
        send_counts(steps.push(step)) == match step {
            SendStep::Complete(nbytes) => send_counts(steps).push(nbytes),
            _ => send_counts(steps),
        },
{
    assert(steps.push(step).drop_last() =~= steps);
}

/// A transfer puts its length on the control connection and its bytes on the data
/// connection, once each, and its bytes are counted once.
pub proof fn a_transfer_is_announced_sent_and_counted_once(
    v: SendingView,
    chunk: Chunk,
    data: Seq<u8>,
)
    requires
        v.stage is Waiting,
    ensures
        ctrl_bytes(v.steps(v.transfer(chunk))) == crate::wire::be_bytes(
            chunk.len as nat,
            crate::wire::len_width(),
        ),
        data_bytes(v.steps(v.transfer(chunk)), data) == data,
        send_counts(v.steps(v.transfer(chunk))) == seq![chunk.len],
{
    a_transfer_is_sent_in_order(v, chunk);
    let length = crate::wire::be_bytes(chunk.len as nat, crate::wire::len_width());
    let s0 = Seq::<SendStep>::empty();
    let s1 = s0.push(SendStep::Length(length, crate::sender::no_marks()));
    let s2 = s1.push(SendStep::Payload(v.sender.marks(chunk)));
    let s3 = s2.push(SendStep::Forward(chunk.chunk_tag));
    lemma_one_more_step(s0, SendStep::Length(length, crate::sender::no_marks()), data);
    lemma_one_more_step(s1, SendStep::Payload(v.sender.marks(chunk)), data);
    lemma_one_more_step(s2, SendStep::Forward(chunk.chunk_tag), data);
    lemma_one_more_step(s2, SendStep::Complete(chunk.len), data);
    lemma_one_more_step(s3, SendStep::Complete(chunk.len), data);
    let steps = v.steps(v.transfer(chunk));
    assert(steps =~= if v.forwards(chunk) {
        s3.push(SendStep::Complete(chunk.len))
    } else {
        s2.push(SendStep::Complete(chunk.len))
    });
    assert(ctrl_bytes(steps) =~= length);
    assert(data_bytes(steps, data) =~= data);
    assert(send_counts(steps) =~= seq![chunk.len]);
}

/// How `step` sends a transfer, call by call: it asks for the length, spelled in
/// full and unmarked, then for the bytes, marked with the offset and, if tagged, the
/// number of the storage server, then for a copy under the tag of the transfer if it
/// is tagged and there is storage, and last for the count of its bytes. Then it waits
/// again, and the offset of the server has moved on by what was tagged.
pub proof fn a_transfer_is_sent_call_by_call(
    s1: &mut Sending,
    chunk: Chunk,
    a1: SendAction,
    s2: &mut Sending,
    a2: SendAction,
    s3: &mut Sending,
    a3: SendAction,
    s4: &mut Sending,
    a4: SendAction,
)
    requires
        s1.valid(),
        s1.stage is Waiting,
        s1.state.num_storage > 0,
        call_ensures(Sending::step, (s1, SendEvent::Requested(chunk)), a1),
        *final(s1) == *s2,
        call_ensures(Sending::step, (s2, SendEvent::LengthWritten), a2),
        *final(s2) == *s3,
        call_ensures(Sending::step, (s3, SendEvent::PayloadWritten), a3),
        *final(s3) == *s4,
        a3 is Forward ==> call_ensures(Sending::step, (s4, SendEvent::Forwarded), a4),
    ensures
        ({
            let tagged = chunk.bucket_id != 0 && chunk.chunk_tag >= 0;
            let sid = final(s3).state.sid as int;
            let moved = final(s3).state.reduced_byte_offsets@[sid]
                - old(s1).state.reduced_byte_offsets@[sid];
            &&& a1 matches SendAction::WriteLength(bytes, plain)
            &&& 8 * bytes@.len() == usize::BITS
            &&& crate::wire::be_value(bytes@) == chunk.len
            &&& plain.dscp_bits == 0 && plain.optional_seq == 0
            &&& a2 matches SendAction::WritePayload(marks)
            &&& marks.optional_seq == old(s1).state.reduced_byte_offsets@[sid]
            &&& marks.dscp_bits == if tagged {
                128 + 4 * sid
            } else {
                0
            }
            &&& a3 == if old(s1).storage && tagged {
                SendAction::Forward(chunk.chunk_tag)
            } else {
                SendAction::Complete(chunk.len)
            }
            &&& a3 is Complete ==> final(s3).stage is Waiting
            &&& a3 is Forward ==> a4 == SendAction::Complete(chunk.len) && final(s4).stage
                is Waiting
            &&& moved == if tagged {
                chunk.len as int % 0x1_0000_0000
            } else {
                0
            }
            &&& final(s3).storage == old(s1).storage
        }),
        call_requires(Sending::step, (s2, SendEvent::LengthWritten)),
        call_requires(Sending::step, (s3, SendEvent::PayloadWritten)),
        a3 is Forward ==> call_requires(Sending::step, (s4, SendEvent::Forwarded)),
        call_ensures(Sending::accepts, (&*old(s1), chunk), true) ==> call_requires(
            Sending::step,
            (s1, SendEvent::Requested(chunk)),
        ),
{
    let v = s1@.sender;
    let sid = v.sid_for(chunk.bucket_id as int);
    crate::wire::length_survives_the_wire(chunk.len);
    assert(usize::BITS == 32 || usize::BITS == 64);
    assert(s1.state.reduced_byte_offsets@.len() == s1.state.num_storage);
    assert(final(s3)@.sender == v.after(chunk));
    assert(final(s3).state.sid == sid);
    assert(0 <= sid < s1.state.num_storage);
    assert(v.offsets[sid] == s1.state.reduced_byte_offsets@[sid]);
    assert(final(s3)@.sender.offsets[sid] == final(s3).state.next_reduced_byte_offsets@[sid]);
    assert(v.after(chunk).offsets[sid] == final(s3).state.reduced_byte_offsets@[sid]);
}

/// A sender that waits takes every transfer whose offset fits, and one that does not
/// wait takes none.
pub proof fn a_waiting_sender_takes_what_fits(s: &Sending, chunk: Chunk, accepted: bool, fits: bool)
    requires
        call_ensures(Sending::accepts, (s, chunk), accepted),
        call_ensures(SenderState::has_room_for, (&s.state, chunk), fits),
        s.state.next_reduced_byte_offsets@ == s.state.reduced_byte_offsets@,
    ensures
        accepted <==> s.stage is Waiting && s.state.reduced_byte_offsets@.len() > 0 && fits,
{
    assert(s@.sender == s.state@);
}

} // verus!
