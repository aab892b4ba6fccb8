//! Mirroring chunks to a storage server.

use vstd::prelude::*;
use crate::wire::ChunkInfo;

verus! {

/// The low 32 bits of a length as a signed number.
pub open spec fn low_i32(len: usize) -> int {
    let low = len as int % 0x1_0000_0000;
    if low < 0x8000_0000 {
        low
    } else {
        low - 0x1_0000_0000
    }
}

/// Mirrors what one sender sends, if this rank is one that mirrors.
#[derive(Clone, Copy, Debug, PartialEq, Eq, Structural)]
pub struct Repeater {
    pub active: bool,
}

impl Repeater {
    /// With storage, the first and the last rank mirror what they send.
    pub open spec fn mirrors(storage: bool, rank: int, nranks: int) -> bool {
        storage && (rank == 0 || rank == nranks - 1)
    }

    /// The repeater of a sender.
    pub fn new(rank: i32, nranks: i32, storage: bool) -> (r: Repeater)
        requires
            storage && rank != 0 ==> nranks > i32::MIN,
        ensures
            r.active == Repeater::mirrors(storage, rank as int, nranks as int),
    {
        if !storage || (rank != 0 && rank != nranks - 1) {
            return Repeater { active: false };
        }
        Repeater { active: true }
    }

    /// The header that goes before a mirrored chunk of `len` bytes.
    pub fn chunk_header(chunk_offset: i32, len: usize) -> (bytes: Vec<u8>)
        ensures
            bytes@ == (ChunkInfo { chunk_offset, chunk_size: low_i32(len) as i32 }).bytes(),
    {
        let low: u64 = len as u64 % 0x1_0000_0000;
        let chunk_size: i32 = if low < 0x8000_0000 {
            low as i32
        } else {
            (low as i64 - 0x1_0000_0000) as i32
        };
        let chunk_info = ChunkInfo { chunk_offset, chunk_size };
        chunk_info.to_bytes()
    }
}

/// How far the mirroring of a chunk has come.
#[derive(Clone, Copy, Debug, PartialEq, Eq, Structural)]
pub enum MirrorState {
    /// No chunk was handed in.
    Waiting,
    /// The header of the chunk is being written.
    WritingHeader,
    /// The bytes of the chunk are being written.
    WritingPayload,
}

/// What happened since the last step.
#[derive(Clone, Copy, Debug, PartialEq, Eq, Structural)]
pub enum MirrorEvent {
    /// A chunk of so many bytes was handed in for this offset.
    Requested(i32, usize),
    /// The header was written to the control connection.
    HeaderWritten,
    /// The bytes were written to the data connection.
    PayloadWritten,
}

/// What is to be done next.
#[derive(Debug)]
pub enum MirrorAction {
    /// Write these bytes to the control connection.
    WriteHeader(Vec<u8>),
    /// Write the bytes of the chunk to the data connection.
    WritePayload,
    /// Count a subtask of the request, with so many bytes.
    Complete(usize),
}

/// What a step asks for.
pub enum MirrorStep {
    Header(Seq<u8>),
    Payload,
    Complete(usize),
}

impl View for MirrorAction {
    type V = MirrorStep;

    open spec fn view(&self) -> MirrorStep {
        match self {
            MirrorAction::WriteHeader(bytes) => MirrorStep::Header(bytes@),
            MirrorAction::WritePayload => MirrorStep::Payload,
            MirrorAction::Complete(nbytes) => MirrorStep::Complete(*nbytes),
        }
    }
}

impl MirrorState {
    /// Whether an event can happen in a state.
    pub open spec fn expects(self, event: MirrorEvent) -> bool {
        match event {
            MirrorEvent::Requested(_, _) => self is Waiting,
            MirrorEvent::HeaderWritten => self is WritingHeader,
            MirrorEvent::PayloadWritten => self is WritingPayload,
        }
    }

    /// The state that an event leads to.
    pub open spec fn next(event: MirrorEvent) -> MirrorState {
        match event {
            MirrorEvent::Requested(_, _) => MirrorState::WritingHeader,
            MirrorEvent::HeaderWritten => MirrorState::WritingPayload,
            MirrorEvent::PayloadWritten => MirrorState::Waiting,
        }
    }

    /// What an event makes it ask for: the header goes first, then the bytes, and
    /// the count comes last. The bytes of the transfer are counted by its sender,
    /// so none are counted here.
    pub open spec fn asks(event: MirrorEvent) -> MirrorStep {
        match event {
            MirrorEvent::Requested(chunk_offset, len) => MirrorStep::Header(
                (ChunkInfo { chunk_offset, chunk_size: low_i32(len) as i32 }).bytes(),
            ),
            MirrorEvent::HeaderWritten => MirrorStep::Payload,
            MirrorEvent::PayloadWritten => MirrorStep::Complete(0),
        }
    }

    /// One step of mirroring a chunk.
    pub fn step(&mut self, event: MirrorEvent) -> (action: MirrorAction)
        requires
            old(self).expects(event),
        ensures
            *final(self) == MirrorState::next(event),
            action@ == MirrorState::asks(event),
    {
        match event {
            MirrorEvent::Requested(chunk_offset, len) => {
                *self = MirrorState::WritingHeader;
                MirrorAction::WriteHeader(Repeater::chunk_header(chunk_offset, len))
            },
            MirrorEvent::HeaderWritten => {
                *self = MirrorState::WritingPayload;
                MirrorAction::WritePayload
            },
            MirrorEvent::PayloadWritten => {
                *self = MirrorState::Waiting;
                MirrorAction::Complete(0)
            },
        }
    }
}

/// The events of mirroring a chunk, from one wait to the next.
pub open spec fn mirror_events(chunk_offset: i32, len: usize) -> Seq<MirrorEvent> {
    seq![
        MirrorEvent::Requested(chunk_offset, len),
        MirrorEvent::HeaderWritten,
        MirrorEvent::PayloadWritten,
    ]
}

/// What several events make a repeater ask for, one after the other.
pub open spec fn mirror_steps(events: Seq<MirrorEvent>) -> Seq<MirrorStep> {
    events.map_values(|event: MirrorEvent| MirrorState::asks(event))
}

/// What several steps count.
pub open spec fn mirror_counts(steps: Seq<MirrorStep>) -> Seq<usize>
    decreases steps.len(),
{
    if steps.len() == 0 {
        Seq::empty()
    } else {
        let before = mirror_counts(steps.drop_last());
        match steps.last() {
            MirrorStep::Complete(nbytes) => before.push(nbytes),
            _ => before,
        }
    }
}

/// A chunk is mirrored in order: its header, its bytes, and then one count of no
/// bytes. Each event can happen in the state that the one before led to, and the
/// repeater then waits again.
pub proof fn a_chunk_is_mirrored_in_order(chunk_offset: i32, len: usize)
    ensures
        ({
            let events = mirror_events(chunk_offset, len);
            let header = ChunkInfo { chunk_offset, chunk_size: low_i32(len) as i32 };
            &&& MirrorState::Waiting.expects(events[0])
            &&& MirrorState::next(events[0]).expects(events[1])
            &&& MirrorState::next(events[1]).expects(events[2])
            &&& MirrorState::next(events[2]) == MirrorState::Waiting
            &&& mirror_steps(events) == seq![
                MirrorStep::Header(header.bytes()),
                MirrorStep::Payload,
                MirrorStep::Complete(0),
            ]
            &&& mirror_counts(mirror_steps(events)) == seq![0usize]
        }),
{
    let steps = mirror_steps(mirror_events(chunk_offset, len));
    let header = ChunkInfo { chunk_offset, chunk_size: low_i32(len) as i32 };
    assert(steps =~= seq![
        MirrorStep::Header(header.bytes()),
        MirrorStep::Payload,
        MirrorStep::Complete(0),
    ]);
    assert(mirror_counts(steps) =~= seq![0usize]) by {
        reveal_with_fuel(mirror_counts, 4);
    }
}

/// A chunk of less than two gibibytes is announced with its true length.
pub proof fn short_chunks_keep_their_length(len: usize)
    requires
        len < 0x8000_0000,
    ensures
        low_i32(len) == len,
{
}

/// With storage, the first rank and the last one mirror what they send, and no other
/// does; without storage none does.
pub proof fn the_first_and_the_last_rank_mirror(rank: i32, nranks: i32, storage: bool, r: Repeater)
    requires
        call_ensures(Repeater::new, (rank, nranks, storage), r),
    ensures
        r.active ==> storage && (rank == 0 || rank + 1 == nranks),
        storage && rank == 0 ==> r.active,
        storage && rank + 1 == nranks ==> r.active,
        !storage || rank == 0 || nranks > i32::MIN ==> call_requires(
            Repeater::new,
            (rank, nranks, storage),
        ),
{
}

/// The header of a chunk is eight bytes. Each half of it, read from its last byte to
/// its first, is a number of 32 bits: the first is the offset in two's complement,
/// and the second the length of the chunk as far as 32 bits say it.
pub proof fn a_header_announces_offset_and_length(chunk_offset: i32, len: usize, bytes: Vec<u8>)
    requires
        call_ensures(Repeater::chunk_header, (chunk_offset, len), bytes),
    ensures
        ({
            let b = bytes@;
            let first = b[0] + b[1] * 0x100 + b[2] * 0x1_0000 + b[3] * 0x100_0000;
            let second = b[4] + b[5] * 0x100 + b[6] * 0x1_0000 + b[7] * 0x100_0000;
            &&& b.len() == 8
            &&& first == chunk_offset || first == chunk_offset + 0x1_0000_0000
            &&& second == len as int % 0x1_0000_0000
            &&& len <= u32::MAX ==> second == len
        }),
{
    let info = ChunkInfo { chunk_offset, chunk_size: low_i32(len) as i32 };
    crate::wire::lemma_header_sums(info);
    assert(bytes@ == info.bytes());
}

/// How `step` mirrors a chunk, call by call: it asks for the header of the chunk,
/// then for its bytes, and last for a count of no bytes. Then it waits again.
pub proof fn a_chunk_is_mirrored_call_by_call(
    s1: &mut MirrorState,
    chunk_offset: i32,
    len: usize,
    a1: MirrorAction,
    header: Vec<u8>,
    s2: &mut MirrorState,
    a2: MirrorAction,
    s3: &mut MirrorState,
    a3: MirrorAction,
)
    requires
        call_ensures(MirrorState::step, (s1, MirrorEvent::Requested(chunk_offset, len)), a1),
        call_ensures(Repeater::chunk_header, (chunk_offset, len), header),
        *final(s1) == *s2,
        call_ensures(MirrorState::step, (s2, MirrorEvent::HeaderWritten), a2),
        *final(s2) == *s3,
        call_ensures(MirrorState::step, (s3, MirrorEvent::PayloadWritten), a3),
    ensures
        a1 matches MirrorAction::WriteHeader(bytes) && bytes@ == header@,
        a2 is WritePayload,
        a3 == MirrorAction::Complete(0),
        *final(s1) == MirrorState::WritingHeader,
        *final(s2) == MirrorState::WritingPayload,
        *final(s3) == MirrorState::Waiting,
        *old(s1) is Waiting ==> call_requires(
            MirrorState::step,
            (s1, MirrorEvent::Requested(chunk_offset, len)),
        ),
        call_requires(MirrorState::step, (s2, MirrorEvent::HeaderWritten)),
        call_requires(MirrorState::step, (s3, MirrorEvent::PayloadWritten)),
{
}

} // verus!
