//! Reading exactly as many bytes as were asked for from a connection that hands
//! out chunks of its own size.

use vstd::prelude::*;

verus! {

/// What the connection did since the last step.
pub enum ReadEvent<'a> {
    /// A read begins; nothing was received for it yet.
    Start,
    /// A chunk was received.
    Received(&'a [u8]),
    /// There was nothing to receive.
    Idle,
}

/// What is to be done next.
#[derive(Clone, Copy, Debug, PartialEq, Eq, Structural)]
pub enum ReadAction {
    /// Receive a chunk.
    Receive,
    /// Wait for the connection to have something, then receive a chunk.
    Poll,
    /// The read is complete; so many bytes were read.
    Done(isize),
}

/// A read under way.
#[verifier::ext_equal]
pub struct ReadView {
    /// The bytes that the read has delivered.
    pub out: Seq<u8>,
    /// The bytes that were received and not asked for yet.
    pub pending: Seq<u8>,
}

/// The smaller of two lengths.
pub open spec fn at_most(a: nat, b: nat) -> int {
    if a <= b {
        a as int
    } else {
        b as int
    }
}

impl ReadView {
    /// A read of `size` bytes begins with what was left over.
    pub open spec fn start(pending: Seq<u8>, size: nat) -> ReadView {
        let n = at_most(pending.len(), size);
        ReadView { out: pending.take(n), pending: pending.skip(n) }
    }

    /// A read of `size` bytes goes on with a chunk; what is too much of it is
    /// left over.
    pub open spec fn receive(self, size: nat, chunk: Seq<u8>) -> ReadView {
        let n = at_most(chunk.len(), (size - self.out.len()) as nat);
        ReadView { out: self.out + chunk.take(n), pending: chunk.skip(n) }
    }

    /// A buffer with the bytes that were delivered in front, and else as it was.
    pub open spec fn laid_into(self, buf: Seq<u8>) -> Seq<u8> {
        self.out + buf.skip(self.out.len() as int)
    }

    /// What is to be done after `start` or `receive`.
    pub open spec fn action(self, size: usize) -> ReadAction {
        if self.out.len() < size {
            ReadAction::Receive
        } else {
            ReadAction::Done(size as isize)
        }
    }
}

/// The receiving end of a connection.
#[derive(Debug)]
pub struct TCPReader {
    pub fd: i32,
    pub partial: Option<Vec<u8>>,
    pub filled: usize,
}

impl TCPReader {
    /// The bytes that were received and not asked for yet.
    pub open spec fn pending(self) -> Seq<u8> {
        match self.partial {
            Some(bytes) => bytes@,
            None => Seq::empty(),
        }
    }

    /// A read into `buf` under way.
    pub open spec fn reading(self, buf: Seq<u8>) -> ReadView {
        ReadView { out: buf.take(self.filled as int), pending: self.pending() }
    }

    /// A read of `size` bytes is under way and lacks some; then nothing is left
    /// over.
    pub open spec fn lacking(self, size: usize) -> bool {
        self.filled < size && self.partial is None
    }

    /// Where nothing is left over, nothing is kept.
    pub open spec fn keeps_no_empty_rest(self) -> bool {
        self.partial is Some ==> self.pending().len() > 0
    }

    /// The reader of an accepted connection.
    pub fn new(fd: i32) -> (r: TCPReader)
        ensures
            r.fd == fd,
            r.partial is None,
            r.pending() == Seq::<u8>::empty(),
            r.filled == 0,
    {
        TCPReader { fd, partial: None, filled: 0 }
    }

    /// Copies as much of `src` as a read of `size` bytes still lacks and keeps
    /// the rest.
    fn take_from(&mut self, buf: &mut [u8], size: usize, src: &[u8])
        requires
            size <= old(buf)@.len(),
            old(self).filled <= size,
        ensures
            final(self).fd == old(self).fd,
            final(buf)@.len() == old(buf)@.len(),
            final(buf)@ == final(self).reading(final(buf)@).laid_into(old(buf)@),
            final(self).keeps_no_empty_rest(),
            final(self).filled == old(self).filled + at_most(
                src@.len(),
                (size - old(self).filled) as nat,
            ),
            final(self).reading(final(buf)@) == old(self).reading(old(buf)@).receive(
                size as nat,
                src@,
            ),
            final(self).filled < size ==> final(self).partial is None,
    {
        let start: usize = self.filled;
        let room: usize = size - start;
        let n: usize = if src.len() <= room {
            src.len()
        } else {
            room
        };
        let mut i: usize = 0;
        while i < n
            invariant
                n <= src@.len(),
                start + n <= size <= buf@.len(),
                i <= n,
                buf@.len() == old(buf)@.len(),
                buf@.take(start as int) == old(buf)@.take(start as int),
                buf@.subrange(start as int, start + i) == src@.take(i as int),
                buf@.skip(start + i) == old(buf)@.skip(start + i),
            decreases n - i,
        {
            let ghost before = buf@;
            buf[start + i] = src[i];
            i = i + 1;
            assert(buf@.take(start as int) =~= before.take(start as int));
            assert(buf@.subrange(start as int, start + i) =~= before.subrange(
                start as int,
                start + i - 1,
            ).push(src@[i - 1]));
            assert(src@.take(i as int) =~= src@.take(i - 1).push(src@[i - 1]));
            assert(buf@.skip(start + i) =~= before.skip(start + i - 1).skip(1));
            assert(old(buf)@.skip(start + i) =~= old(buf)@.skip(start + i - 1).skip(1));
        }
        if n < src.len() {
            self.partial = Some(vstd::slice::slice_to_vec(vstd::slice::slice_subrange(src, n, src.len())));
        } else {
            self.partial = None;
        }
        self.filled = start + n;
        assert(buf@.take(start + n) =~= buf@.take(start as int) + buf@.subrange(
            start as int,
            start + n,
        ));
        assert(self.pending() =~= src@.skip(n as int));
        assert(buf@ =~= self.reading(buf@).laid_into(old(buf)@)) by {
            assert(buf@ =~= buf@.take(start + n) + buf@.skip(start + n));
        }
    }

    /// One step of reading `size` bytes into the front of `buf`.
    pub fn read_exact(&mut self, buf: &mut [u8], size: usize, event: ReadEvent) -> (action: ReadAction)
        requires
            size <= old(buf)@.len(),
            !(event is Start) ==> old(self).lacking(size),
        ensures
            final(self).fd == old(self).fd,
            final(buf)@.len() == old(buf)@.len(),
            final(buf)@.skip(size as int) == old(buf)@.skip(size as int),
            final(self).filled <= size,
            final(self).keeps_no_empty_rest(),
            action is Receive || action is Poll ==> final(self).lacking(size),
            match event {
                ReadEvent::Start => {
                    let next = ReadView::start(old(self).pending(), size as nat);
                    &&& final(self).reading(final(buf)@) == next
                    &&& final(buf)@ == next.laid_into(old(buf)@)
                    &&& action == next.action(size)
                },
                ReadEvent::Received(chunk) => {
                    let next = old(self).reading(old(buf)@).receive(size as nat, chunk@);
                    &&& final(self).reading(final(buf)@) == next
                    &&& final(buf)@ == next.laid_into(old(buf)@)
                    &&& action == next.action(size)
                },
                ReadEvent::Idle => *final(self) == *old(self) && final(buf)@ == old(buf)@ && action
                    == ReadAction::Poll,
            },
    {
        match event {
            ReadEvent::Start => {
                self.filled = 0;
                let held = self.partial.take();
                match held {
                    Some(bytes) => {
                        self.take_from(buf, size, bytes.as_slice());
                        assert(self.reading(buf@) =~= ReadView::start(bytes@, size as nat));
                    },
                    None => {
                        assert(self.reading(buf@) =~= ReadView::start(Seq::empty(), size as nat));
                        assert(buf@ =~= self.reading(buf@).laid_into(buf@));
                    },
                }
            },
            ReadEvent::Received(chunk) => {
                self.take_from(buf, size, chunk);
            },
            ReadEvent::Idle => {
                return ReadAction::Poll;
            },
        }
        assert(buf@.skip(size as int) =~= buf@.skip(self.filled as int).skip(size - self.filled));
        assert(old(buf)@.skip(size as int) =~= old(buf)@.skip(self.filled as int).skip(
            size - self.filled,
        ));
        if self.filled < size {
            ReadAction::Receive
        } else {
            ReadAction::Done(size as isize)
        }
    }
}

/// Chunks one after the other.
pub open spec fn joined(chunks: Seq<Seq<u8>>) -> Seq<u8>
    decreases chunks.len(),
{
    if chunks.len() == 0 {
        Seq::empty()
    } else {
        joined(chunks.drop_last()) + chunks.last()
    }
}

/// A read of `size` bytes and the chunks that were received for it.
pub struct ReadTrace {
    pub size: nat,
    pub chunks: Seq<Seq<u8>>,
}

impl ReadTrace {
    /// The read after its first `n` chunks.
    pub open spec fn after(self, pending: Seq<u8>, n: nat) -> ReadView
        decreases n,
    {
        if n == 0 {
            ReadView::start(pending, self.size)
        } else {
            self.after(pending, (n - 1) as nat).receive(self.size, self.chunks[n - 1])
        }
    }

    /// The read after all of its chunks.
    pub open spec fn end(self, pending: Seq<u8>) -> ReadView {
        self.after(pending, self.chunks.len())
    }

    /// The buffer after the first `n` chunks of a read into `buf`: each step lays
    /// what was delivered so far into what the step before left.
    pub open spec fn buffer(self, pending: Seq<u8>, buf: Seq<u8>, n: nat) -> Seq<u8>
        decreases n,
    {
        if n == 0 {
            self.after(pending, 0).laid_into(buf)
        } else {
            self.after(pending, n).laid_into(self.buffer(pending, buf, (n - 1) as nat))
        }
    }

    /// Each chunk was received while the read lacked bytes.
    pub open spec fn in_turn(self, pending: Seq<u8>) -> bool {
        forall|i: nat|
            i < self.chunks.len() ==> (#[trigger] self.after(pending, i)).out.len() < self.size
    }

    /// The read went on for as long as its steps said to receive, and its last
    /// step said that it is done.
    pub open spec fn done(self, pending: Seq<u8>) -> bool {
        &&& self.size <= usize::MAX
        &&& forall|i: nat|
            i < self.chunks.len() ==> (#[trigger] self.after(pending, i)).action(
                self.size as usize,
            ) is Receive
        &&& self.end(pending).action(self.size as usize) is Done
    }

    /// The read got all it asked for, and then received nothing more.
    pub open spec fn complete(self, pending: Seq<u8>) -> bool {
        self.in_turn(pending) && self.end(pending).out.len() >= self.size
    }
}

proof fn lemma_read_keeps_every_byte(t: ReadTrace, pending: Seq<u8>, n: nat)
    requires
        t.in_turn(pending),
        n <= t.chunks.len(),
    ensures
        t.after(pending, n).out + t.after(pending, n).pending == pending + joined(
            t.chunks.take(n as int),
        ),
        t.after(pending, n).out.len() <= t.size,
        t.after(pending, n).out.len() < t.size ==> t.after(pending, n).pending.len() == 0,
    decreases n,
{
    let v = t.after(pending, n);
    if n == 0 {
        assert(joined(t.chunks.take(0)) =~= Seq::empty());
        assert(v.out + v.pending =~= pending);
    } else {
        let m = (n - 1) as nat;
        lemma_read_keeps_every_byte(t, pending, m);
        let u = t.after(pending, m);
        let chunk = t.chunks[n - 1];
        assert(u.out.len() < t.size);
        assert(u.out + u.pending =~= u.out);
        assert(t.chunks.take(n as int).drop_last() =~= t.chunks.take(m as int));
        assert(v.out + v.pending =~= u.out + chunk);
        assert(u.out + chunk =~= pending + joined(t.chunks.take(n as int)));
    }
}

/// A read delivers what was left over and then what was received, in order and
/// byte for byte: a complete read has the first `size` bytes of these, and the
/// rest is left over for the next one.
pub proof fn a_read_keeps_every_byte(t: ReadTrace, pending: Seq<u8>)
    requires
        t.in_turn(pending),
    ensures
        t.end(pending).out + t.end(pending).pending == pending + joined(t.chunks),
        t.end(pending).out.len() <= t.size,
        t.complete(pending) ==> t.end(pending).out == (pending + joined(t.chunks)).take(
            t.size as int,
        ) && t.end(pending).pending == (pending + joined(t.chunks)).skip(t.size as int),
{
    lemma_read_keeps_every_byte(t, pending, t.chunks.len());
    assert(t.chunks.take(t.chunks.len() as int) =~= t.chunks);
    let v = t.end(pending);
    if t.complete(pending) {
        assert(v.out =~= (v.out + v.pending).take(t.size as int));
        assert(v.pending =~= (v.out + v.pending).skip(t.size as int));
    }
}

/// A read is done exactly if it has all it asked for: one that went on for as long
/// as its steps said so, and was then told that it is done, has delivered as many
/// bytes as it asked for, the first of what was left over and received. And one
/// that has received as much as it asked for, and no more than that took, is done.
pub proof fn a_read_that_is_done_has_all_its_bytes(t: ReadTrace, pending: Seq<u8>)
    requires
        t.size <= usize::MAX,
    ensures
        t.done(pending) <==> t.complete(pending),
        t.done(pending) ==> {
            &&& t.end(pending).out.len() == t.size
            &&& t.end(pending).out == (pending + joined(t.chunks)).take(t.size as int)
            &&& (pending + joined(t.chunks)).len() >= t.size
        },
        t.in_turn(pending) && (pending + joined(t.chunks)).len() >= t.size ==> t.done(pending),
{
    if t.done(pending) {
        assert forall|i: nat| i < t.chunks.len() implies (#[trigger] t.after(pending, i)).out.len()
            < t.size by {
            assert(t.after(pending, i).action(t.size as usize) is Receive);
        }
    }
    if t.in_turn(pending) {
        a_read_keeps_every_byte(t, pending);
        lemma_read_keeps_every_byte(t, pending, t.chunks.len());
        let v = t.end(pending);
        assert((v.out + v.pending).len() == (pending + joined(t.chunks)).len());
        assert forall|i: nat| i < t.chunks.len() implies (#[trigger] t.after(pending, i)).action(
            t.size as usize,
        ) is Receive by {
            assert(t.after(pending, i).out.len() < t.size);
        }
    }
}

/// A read of `size` bytes touches the first `size` bytes of its buffer at most:
/// step by step, it lays what it has delivered into the front of it, and what lies
/// behind stays as it was.
pub proof fn a_read_leaves_the_rest_of_its_buffer(
    t: ReadTrace,
    pending: Seq<u8>,
    buf: Seq<u8>,
    n: nat,
)
    requires
        t.in_turn(pending),
        t.size <= buf.len(),
        n <= t.chunks.len(),
    ensures
        t.buffer(pending, buf, n) == t.after(pending, n).laid_into(buf),
        t.buffer(pending, buf, n).len() == buf.len(),
        t.buffer(pending, buf, n).skip(t.size as int) == buf.skip(t.size as int),
    decreases n,
{
    let v = t.after(pending, n);
    lemma_read_keeps_every_byte(t, pending, n);
    if n > 0 {
        let m = (n - 1) as nat;
        let u = t.after(pending, m);
        a_read_leaves_the_rest_of_its_buffer(t, pending, buf, m);
        assert(u.out.len() < t.size);
        assert(u.laid_into(buf).skip(v.out.len() as int) =~= buf.skip(v.out.len() as int));
    }
    assert(v.laid_into(buf).skip(t.size as int) =~= buf.skip(t.size as int));
}

/// What is left over after several reads.
pub open spec fn left_over(pending: Seq<u8>, reads: Seq<ReadTrace>) -> Seq<u8>
    decreases reads.len(),
{
    if reads.len() == 0 {
        pending
    } else {
        reads.last().end(left_over(pending, reads.drop_last())).pending
    }
}

/// What several reads delivered, one after the other.
pub open spec fn delivered(pending: Seq<u8>, reads: Seq<ReadTrace>) -> Seq<u8>
    decreases reads.len(),
{
    if reads.len() == 0 {
        Seq::empty()
    } else {
        delivered(pending, reads.drop_last()) + reads.last().end(
            left_over(pending, reads.drop_last()),
        ).out
    }
}

/// What was received for several reads, one after the other.
pub open spec fn received(reads: Seq<ReadTrace>) -> Seq<u8>
    decreases reads.len(),
{
    if reads.len() == 0 {
        Seq::empty()
    } else {
        received(reads.drop_last()) + joined(reads.last().chunks)
    }
}

/// Each read was complete before the next one began.
pub open spec fn all_complete(pending: Seq<u8>, reads: Seq<ReadTrace>) -> bool
    decreases reads.len(),
{
    reads.len() > 0 ==> {
        &&& all_complete(pending, reads.drop_last())
        &&& reads.last().complete(left_over(pending, reads.drop_last()))
    }
}

/// Each read was done before the next one began.
pub open spec fn all_done(pending: Seq<u8>, reads: Seq<ReadTrace>) -> bool
    decreases reads.len(),
{
    reads.len() > 0 ==> {
        &&& all_done(pending, reads.drop_last())
        &&& reads.last().done(left_over(pending, reads.drop_last()))
    }
}

/// Reads that were done are complete.
pub proof fn reads_that_are_done_are_complete(pending: Seq<u8>, reads: Seq<ReadTrace>)
    requires
        all_done(pending, reads),
    ensures
        all_complete(pending, reads),
    decreases reads.len(),
{
    if reads.len() > 0 {
        reads_that_are_done_are_complete(pending, reads.drop_last());
        a_read_that_is_done_has_all_its_bytes(
            reads.last(),
            left_over(pending, reads.drop_last()),
        );
    }
}

/// However the connection cuts its stream, reads in a row deliver the stream
/// from its beginning: nothing is lost, doubled or moved.
pub proof fn reads_deliver_the_stream_in_order(pending: Seq<u8>, reads: Seq<ReadTrace>)
    requires
        all_complete(pending, reads),
    ensures
        delivered(pending, reads) + left_over(pending, reads) == pending + received(reads),
    decreases reads.len(),
{
    if reads.len() == 0 {
        assert(delivered(pending, reads) + left_over(pending, reads) =~= pending + received(reads));
    } else {
        let init = reads.drop_last();
        let last = reads.last();
        let mid = left_over(pending, init);
        reads_deliver_the_stream_in_order(pending, init);
        a_read_keeps_every_byte(last, mid);
        assert(delivered(pending, reads) + left_over(pending, reads) =~= delivered(pending, init) + (
        last.end(mid).out + last.end(mid).pending));
        assert(delivered(pending, init) + (mid + joined(last.chunks)) =~= (delivered(pending, init)
            + mid) + joined(last.chunks));
        assert(pending + received(reads) =~= (pending + received(init)) + joined(last.chunks));
    }
}

/// A step of `read_exact` says that the read is done exactly if as many bytes as
/// were asked for are in the buffer, and to receive exactly if some are lacking.
pub proof fn a_step_is_done_when_the_buffer_is_full(
    reader: &mut TCPReader,
    buf: &mut [u8],
    size: usize,
    event: ReadEvent,
    action: ReadAction,
)
    requires
        size <= buf@.len(),
        size <= isize::MAX,
        call_ensures(TCPReader::read_exact, (reader, buf, size, event), action),
    ensures
        final(reader).fd == old(reader).fd,
        final(reader).filled <= size,
        event is Idle ==> action is Poll && final(reader).filled == old(reader).filled,
        !(event is Idle) ==> {
            &&& action is Done <==> final(reader).filled == size
            &&& action is Receive <==> final(reader).filled < size
        },
        action matches ReadAction::Done(n) ==> n == size,
{
    if !(event is Idle) {
        assert(final(reader).reading(final(buf)@).out.len() == final(reader).filled);
    }
}

/// What a step of `read_exact` does with a chunk: it goes behind what is in the
/// buffer, as far as bytes are lacking, and what is too much of it, and only that,
/// is kept. Nothing else in the buffer changes.
pub proof fn a_chunk_goes_behind_what_was_read(
    reader: &mut TCPReader,
    buf: &mut [u8],
    size: usize,
    chunk: &[u8],
    action: ReadAction,
)
    requires
        size <= buf@.len(),
        reader.filled < size,
        reader.partial is None,
        call_ensures(
            TCPReader::read_exact,
            (reader, buf, size, ReadEvent::Received(chunk)),
            action,
        ),
    ensures
        ({
            let start = old(reader).filled as int;
            let n = if start + chunk@.len() <= size {
                chunk@.len() as int
            } else {
                size - start
            };
            &&& final(reader).filled == start + n
            &&& final(buf)@ == old(buf)@.take(start) + chunk@.take(n) + old(buf)@.skip(start + n)
            &&& match final(reader).partial {
                Some(rest) => n < chunk@.len() && rest@ == chunk@.skip(n),
                None => n == chunk@.len(),
            }
        }),
{
    let start = reader.filled as int;
    let before = reader.reading(buf@);
    let after = before.receive(size as nat, chunk@);
    assert(final(reader).reading(final(buf)@).out.len() == final(reader).filled);
    assert(before.out.len() == start);
    assert(final(buf)@ =~= old(buf)@.take(start) + chunk@.take(after.out.len() - start)
        + old(buf)@.skip(after.out.len() as int));
}

/// What the first step of `read_exact` does: what was left over goes into the front
/// of the buffer, as far as bytes are asked for, and what is too much of it, and
/// only that, is kept. Nothing else in the buffer changes.
pub proof fn what_was_left_over_comes_first(
    reader: &mut TCPReader,
    buf: &mut [u8],
    size: usize,
    action: ReadAction,
)
    requires
        size <= buf@.len(),
        call_ensures(TCPReader::read_exact, (reader, buf, size, ReadEvent::Start), action),
    ensures
        ({
            let held = match old(reader).partial {
                Some(rest) => rest@,
                None => Seq::empty(),
            };
            let n = if held.len() <= size {
                held.len() as int
            } else {
                size as int
            };
            &&& final(reader).filled == n
            &&& final(buf)@ == held.take(n) + old(buf)@.skip(n)
            &&& match final(reader).partial {
                Some(rest) => n < held.len() && rest@ == held.skip(n),
                None => n == held.len(),
            }
        }),
{
    let held = reader.pending();
    let n = at_most(held.len(), size as nat);
    let next = ReadView::start(held, size as nat);
    assert(final(reader).reading(final(buf)@).out.len() == final(reader).filled);
    assert(next.out.len() == n);
    assert(final(reader).pending() == held.skip(n));
    assert(final(buf)@ =~= held.take(n) + old(buf)@.skip(n));
}

/// Every read that its buffer has room for can be started, and goes on for as long
/// as it says to receive or to wait, with any chunk.
pub proof fn a_read_can_go_on_while_it_lacks_bytes(
    reader: &mut TCPReader,
    buf: &mut [u8],
    size: usize,
    event: ReadEvent,
    action: ReadAction,
    next: &mut TCPReader,
    rest: &mut [u8],
    more: ReadEvent,
)
    requires
        size <= buf@.len(),
        call_ensures(TCPReader::read_exact, (reader, buf, size, event), action),
        *next == *final(reader),
        rest@ == final(buf)@,
    ensures
        event is Start ==> call_requires(TCPReader::read_exact, (reader, buf, size, event)),
        action is Receive || action is Poll ==> call_requires(
            TCPReader::read_exact,
            (next, rest, size, more),
        ),
{
}

} // verus!
