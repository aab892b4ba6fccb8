//! How a sender tags what it sends: which storage server a bucket goes to, and
//! at which byte of that server's stream a chunk begins.

use vstd::prelude::*;
use crate::env::MAX_STORAGE;
use crate::wire::encode_len;

verus! {

/// Transfers of this bucket warm the connection up and are never tagged.
pub const WARMUP_BUCKET_ID: i32 = 0;

/// With this bucket the storage servers are gone through from the first again.
pub const FIRST_BUCKET_ID: i32 = 1;

/// What is told of a transfer when it is sent.
#[derive(Clone, Copy, Debug, PartialEq, Eq, Structural)]
pub struct Chunk {
    pub bucket_id: i32,
    pub chunk_tag: i32,
    pub len: usize,
}

impl Chunk {
    /// Whether the transfer is tagged for a storage server.
    pub open spec fn tagged(self) -> bool {
        self.bucket_id != WARMUP_BUCKET_ID && self.chunk_tag >= 0
    }

    /// How far the transfer moves the byte offset of its storage server: its
    /// length, of which the wire keeps the low 32 bits.
    pub open spec fn advance(self) -> int {
        self.len as int % 0x1_0000_0000
    }
}

/// Whether a transfer of this bucket with this tag is tagged for a storage
/// server.
pub fn is_tagged(bucket_id: i32, chunk_tag: i32) -> (r: bool)
    ensures
        r == (Chunk { bucket_id, chunk_tag, len: 0 }).tagged(),
{
    bucket_id != WARMUP_BUCKET_ID && chunk_tag >= 0
}

/// The marks that go into the packets of a transfer.
#[derive(Clone, Copy, Debug, PartialEq, Eq, Structural)]
pub struct Marks {
    /// Bits 0 and 1: ECN, bits 2 to 6: storage server, bit 7: tagged.
    pub dscp_bits: u8,
    pub optional_seq: u32,
}

/// No marks at all, which is how lengths are sent.
pub open spec fn no_marks() -> Marks {
    Marks { dscp_bits: 0, optional_seq: 0 }
}

/// How a transfer is sent: its length on the control connection, then its bytes
/// on the data connection, then, if it is mirrored, a copy to the repeater.
#[derive(Debug)]
pub struct SendPlan {
    pub length: Vec<u8>,
    pub length_marks: Marks,
    pub marks: Marks,
    pub forward: bool,
}

/// The state of a sender between two transfers.
#[verifier::ext_equal]
pub struct SenderView {
    /// The storage server that the active bucket goes to.
    pub sid: int,
    /// The bucket that was last seen, but for warm-up.
    pub active: int,
    /// Of each storage server, the byte at which its next chunk begins.
    pub offsets: Seq<int>,
}

impl SenderView {
    /// A sender that has sent nothing.
    pub open spec fn initial(num_storage: nat) -> SenderView {
        SenderView { sid: 0, active: -1, offsets: Seq::new(num_storage, |i: int| 1) }
    }

    /// The storage server in force for a transfer of bucket `bucket_id`: the
    /// first bucket goes to the first server, and each time the bucket changes
    /// the next server has its turn.
    pub open spec fn sid_for(self, bucket_id: int) -> int {
        if bucket_id == WARMUP_BUCKET_ID {
            self.sid
        } else if bucket_id == FIRST_BUCKET_ID {
            0
        } else if bucket_id != self.active {
            (self.sid + 1) % (self.offsets.len() as int)
        } else {
            self.sid
        }
    }

    /// The state after a transfer.
    pub open spec fn after(self, chunk: Chunk) -> SenderView {
        let sid = self.sid_for(chunk.bucket_id as int);
        SenderView {
            sid,
            active: if chunk.bucket_id == WARMUP_BUCKET_ID {
                self.active
            } else {
                chunk.bucket_id as int
            },
            offsets: if chunk.tagged() {
                self.offsets.update(sid, self.offsets[sid] + chunk.advance())
            } else {
                self.offsets
            },
        }
    }

    /// The marks of a transfer.
    pub open spec fn marks(self, chunk: Chunk) -> Marks {
        let sid = self.sid_for(chunk.bucket_id as int);
        Marks {
            dscp_bits: if chunk.tagged() {
                (0x80 + sid * 4) as u8
            } else {
                0
            },
            optional_seq: self.offsets[sid] as u32,
        }
    }

    /// Whether the offset that a transfer leaves behind can be written down.
    pub open spec fn room_for(self, chunk: Chunk) -> bool {
        chunk.tagged() ==> self.offsets[self.sid_for(chunk.bucket_id as int)] + chunk.advance()
            <= u32::MAX
    }

    /// The state after several transfers.
    pub open spec fn after_all(self, chunks: Seq<Chunk>) -> SenderView
        decreases chunks.len(),
    {
        if chunks.len() == 0 {
            self
        } else {
            self.after_all(chunks.drop_last()).after(chunks.last())
        }
    }
}

/// The state of a sender.
#[derive(Debug)]
pub struct SenderState {
    pub num_storage: u8,
    pub sid: u8,
    pub current_active_bucket: i32,
    pub next_reduced_byte_offsets: Vec<u32>,
    pub reduced_byte_offsets: Vec<u32>,
}

/// The numbers that a vector of words holds.
pub open spec fn words(v: Seq<u32>) -> Seq<int> {
    v.map_values(|w: u32| w as int)
}

impl View for SenderState {
    type V = SenderView;

    open spec fn view(&self) -> SenderView {
        SenderView {
            sid: self.sid as int,
            active: self.current_active_bucket as int,
            offsets: words(self.reduced_byte_offsets@),
        }
    }
}

impl SenderState {
    /// The state once the transfer under way is through.
    pub open spec fn pending(self) -> SenderView {
        SenderView {
            sid: self.sid as int,
            active: self.current_active_bucket as int,
            offsets: words(self.next_reduced_byte_offsets@),
        }
    }

    /// One offset per storage server, at most eight servers, and the server in
    /// force is one of them.
    pub open spec fn shaped(self) -> bool {
        &&& self.num_storage <= MAX_STORAGE
        &&& self.reduced_byte_offsets@.len() == self.num_storage
        &&& self.next_reduced_byte_offsets@.len() == self.num_storage
        &&& self.num_storage > 0 ==> self.sid < self.num_storage
    }

    /// Between two transfers: nothing is pending.
    pub open spec fn idle(self) -> bool {
        &&& self.shaped()
        &&& self.next_reduced_byte_offsets@ == self.reduced_byte_offsets@
    }

    /// During a transfer: only the offset of the server in force may be pending.
    pub open spec fn in_flight(self) -> bool {
        &&& self.shaped()
        &&& self.num_storage > 0
        &&& forall|i: int|
            0 <= i < self.num_storage && i != self.sid ==> #[trigger]
            self.next_reduced_byte_offsets@[i] == self.reduced_byte_offsets@[i]
    }

    /// A sender that has sent nothing. Every offset begins at one.
    pub fn new(num_storage: u8) -> (s: SenderState)
        requires
            num_storage <= MAX_STORAGE,
        ensures
            s.idle(),
            s.num_storage == num_storage,
            s@ == SenderView::initial(num_storage as nat),
    {
        let s = SenderState {
            num_storage,
            sid: 0,
            current_active_bucket: -1,
            next_reduced_byte_offsets: vec![1u32; num_storage as usize],
            reduced_byte_offsets: vec![1u32; num_storage as usize],
        };
        assert(s.next_reduced_byte_offsets@ =~= s.reduced_byte_offsets@);
        assert(s@ =~= SenderView::initial(num_storage as nat));
        s
    }

    /// The storage server in force for a transfer of bucket `bucket_id`.
    fn sid_for(&self, bucket_id: i32) -> (sid: u8)
        requires
            self.shaped(),
            self.num_storage > 0,
        ensures
            sid == self@.sid_for(bucket_id as int),
            sid < self.num_storage,
    {
        if bucket_id == WARMUP_BUCKET_ID {
            self.sid
        } else if bucket_id == FIRST_BUCKET_ID {
            0
        } else if self.current_active_bucket != bucket_id {
            (self.sid + 1) % self.num_storage
        } else {
            self.sid
        }
    }

    /// Whether the offset that a transfer leaves behind fits its 32 bits.
    pub fn has_room_for(&self, chunk: Chunk) -> (r: bool)
        requires
            self.idle(),
            self.num_storage > 0,
        ensures
            r == self@.room_for(chunk),
    {
        if !is_tagged(chunk.bucket_id, chunk.chunk_tag) {
            return true;
        }
        let sid: u8 = self.sid_for(chunk.bucket_id);
        let len: u64 = chunk.len as u64 % 0x1_0000_0000;
        self.reduced_byte_offsets[sid as usize] as u64 + len <= u32::MAX as u64
    }

    /// Starts a transfer: settles the storage server and says how to send it.
    /// With `storage`, tagged transfers are mirrored.
    pub fn begin(&mut self, chunk: Chunk, storage: bool) -> (plan: SendPlan)
        requires
            old(self).idle(),
            old(self).num_storage > 0,
            old(self)@.room_for(chunk),
        ensures
            final(self).in_flight(),
            final(self).num_storage == old(self).num_storage,
            final(self).reduced_byte_offsets@ == old(self).reduced_byte_offsets@,
            final(self).pending() == old(self)@.after(chunk),
            plan.length@ == crate::wire::be_bytes(chunk.len as nat, crate::wire::len_width()),
            plan.length_marks == no_marks(),
            plan.marks == old(self)@.marks(chunk),
            plan.forward == (storage && chunk.tagged()),
    {
        let sid: u8 = self.sid_for(chunk.bucket_id);
        self.sid = sid;
        if chunk.bucket_id != WARMUP_BUCKET_ID {
            self.current_active_bucket = chunk.bucket_id;
        }
        let start: u32 = self.reduced_byte_offsets[sid as usize];
        let mut dscp_bits: u8 = 0;
        let tagged: bool = is_tagged(chunk.bucket_id, chunk.chunk_tag);
        if tagged {
            dscp_bits |= sid << 2;
            dscp_bits |= 0x80;
            assert(sid <= 7 ==> (0u8 | (sid << 2)) | 0x80 == 0x80 + sid * 4) by (bit_vector);
            let len: u64 = chunk.len as u64 % 0x1_0000_0000;
            self.next_reduced_byte_offsets[sid as usize] = start + len as u32;
        }
        assert(self.pending().offsets =~= old(self)@.after(chunk).offsets);
        SendPlan {
            length: encode_len(chunk.len),
            length_marks: Marks { dscp_bits: 0, optional_seq: 0 },
            marks: Marks { dscp_bits, optional_seq: start },
            forward: storage && tagged,
        }
    }

    /// Ends a transfer that has been written.
    pub fn finish(&mut self)
        requires
            old(self).in_flight(),
        ensures
            final(self).idle(),
            final(self).num_storage == old(self).num_storage,
            final(self)@ == old(self).pending(),
            final(self).reduced_byte_offsets@ == old(self).next_reduced_byte_offsets@,
    {
        let sid: usize = self.sid as usize;
        let next: u32 = self.next_reduced_byte_offsets[sid];
        self.reduced_byte_offsets[sid] = next;
        assert(self.next_reduced_byte_offsets@ =~= self.reduced_byte_offsets@);
    }
}

impl SenderView {
    /// What every state of a sender with at least one storage server keeps.
    pub open spec fn valid(self, num_storage: nat) -> bool {
        &&& 0 < num_storage <= MAX_STORAGE
        &&& self.offsets.len() == num_storage
        &&& 0 <= self.sid < num_storage
        &&& self.active != WARMUP_BUCKET_ID
        &&& self.active == FIRST_BUCKET_ID ==> self.sid == 0
        &&& forall|k: int| 0 <= k < num_storage ==> #[trigger] self.offsets[k] >= 1
    }
}

/// The bytes that tagged transfers took to storage server `k`, counted from a
/// sender that had sent nothing.
pub open spec fn bytes_to(num_storage: nat, chunks: Seq<Chunk>, k: int) -> int
    decreases chunks.len(),
{
    if chunks.len() == 0 {
        0
    } else {
        let before = SenderView::initial(num_storage).after_all(chunks.drop_last());
        let chunk = chunks.last();
        bytes_to(num_storage, chunks.drop_last(), k) + if chunk.tagged() && before.sid_for(
            chunk.bucket_id as int,
        ) == k {
            chunk.advance()
        } else {
            0
        }
    }
}

/// A new sender is valid, and stays so over every transfer.
pub proof fn transfers_keep_a_sender_valid(num_storage: nat, chunks: Seq<Chunk>)
    requires
        0 < num_storage <= MAX_STORAGE,
    ensures
        SenderView::initial(num_storage).after_all(chunks).valid(num_storage),
    decreases chunks.len(),
{
    if chunks.len() > 0 {
        transfers_keep_a_sender_valid(num_storage, chunks.drop_last());
        let before = SenderView::initial(num_storage).after_all(chunks.drop_last());
        let chunk = chunks.last();
        let sid = before.sid_for(chunk.bucket_id as int);
        let after = before.after(chunk);
        assert(before.offsets[sid] >= 1);
        assert forall|k: int| 0 <= k < num_storage implies #[trigger] after.offsets[k] >= 1 by {
            assert(before.offsets[k] >= 1);
        }
    }
}

/// The offset of a storage server is one more than the bytes that were tagged
/// for it: chunks abut, without a gap and without an overlap.
pub proof fn offsets_count_tagged_bytes(num_storage: nat, chunks: Seq<Chunk>, k: int)
    requires
        0 < num_storage <= MAX_STORAGE,
        0 <= k < num_storage,
    ensures
        SenderView::initial(num_storage).after_all(chunks).offsets[k] == 1 + bytes_to(
            num_storage,
            chunks,
            k,
        ),
    decreases chunks.len(),
{
    if chunks.len() > 0 {
        offsets_count_tagged_bytes(num_storage, chunks.drop_last(), k);
        transfers_keep_a_sender_valid(num_storage, chunks.drop_last());
    }
}

/// A transfer is marked with the byte, counted from one, at which it begins
/// among the bytes that were tagged for its storage server.
pub proof fn a_transfer_is_marked_with_its_place(
    num_storage: nat,
    chunks: Seq<Chunk>,
    chunk: Chunk,
)
    requires
        0 < num_storage <= MAX_STORAGE,
    ensures
        ({
            let v = SenderView::initial(num_storage).after_all(chunks);
            let place = 1 + bytes_to(num_storage, chunks, v.sid_for(chunk.bucket_id as int));
            place <= u32::MAX ==> v.marks(chunk).optional_seq == place
        }),
{
    let v = SenderView::initial(num_storage).after_all(chunks);
    transfers_keep_a_sender_valid(num_storage, chunks);
    offsets_count_tagged_bytes(num_storage, chunks, v.sid_for(chunk.bucket_id as int));
}

/// A warm-up transfer is not tagged and leaves the sender as it was.
pub proof fn warm_up_leaves_no_trace(v: SenderView, chunk: Chunk)
    requires
        chunk.bucket_id == WARMUP_BUCKET_ID,
    ensures
        v.after(chunk) == v,
        v.marks(chunk).dscp_bits == 0,
{
    assert(v.after(chunk) =~= v);
}

/// A transfer with a negative tag is not tagged and moves no offset.
pub proof fn a_negative_tag_moves_no_offset(v: SenderView, chunk: Chunk)
    requires
        chunk.chunk_tag < 0,
    ensures
        v.after(chunk).offsets == v.offsets,
        v.marks(chunk).dscp_bits == 0,
{
}

/// All transfers of a bucket in a row go to the same storage server.
pub proof fn a_bucket_stays_with_its_server(v: SenderView, num_storage: nat, a: Chunk, b: Chunk)
    requires
        v.valid(num_storage),
        a.bucket_id == b.bucket_id,
    ensures
        v.after(a).sid_for(b.bucket_id as int) == v.sid_for(a.bucket_id as int),
{
}

/// The last bucket of several transfers, warm-up left aside; that of a sender that
/// has sent nothing if there was none.
pub open spec fn last_bucket(chunks: Seq<Chunk>) -> int
    decreases chunks.len(),
{
    if chunks.len() == 0 {
        -1
    } else if chunks.last().bucket_id == 0 {
        last_bucket(chunks.drop_last())
    } else {
        chunks.last().bucket_id as int
    }
}

/// How often the bucket has changed since the first bucket was last seen, warm-up
/// left aside.
pub open spec fn turns(chunks: Seq<Chunk>) -> int
    decreases chunks.len(),
{
    if chunks.len() == 0 {
        0
    } else {
        let before = turns(chunks.drop_last());
        let bucket = chunks.last().bucket_id;
        if bucket == 0 {
            before
        } else if bucket == 1 {
            0
        } else if bucket != last_bucket(chunks.drop_last()) {
            before + 1
        } else {
            before
        }
    }
}

/// Whatever was sent, the storage servers take turns: with the first bucket the
/// first one is in force, and each change of bucket moves to the next one, round
/// and round.
pub proof fn buckets_take_turns(num_storage: nat, chunks: Seq<Chunk>)
    requires
        0 < num_storage <= MAX_STORAGE,
    ensures
        ({
            let v = SenderView::initial(num_storage).after_all(chunks);
            &&& v.active == last_bucket(chunks)
            &&& turns(chunks) >= 0
            &&& v.sid == turns(chunks) % (num_storage as int)
        }),
    decreases chunks.len(),
{
    let n = num_storage as int;
    assert(0int % n == 0) by (nonlinear_arith)
        requires
            n > 0,
    ;
    if chunks.len() > 0 {
        let init = chunks.drop_last();
        buckets_take_turns(num_storage, init);
        transfers_keep_a_sender_valid(num_storage, init);
        let k = turns(init);
        assert((k % n + 1) % n == (k + 1) % n) by {
            vstd::arithmetic::div_mod::lemma_add_mod_noop(k, 1, n);
            vstd::arithmetic::div_mod::lemma_add_mod_noop(k % n, 1, n);
            vstd::arithmetic::div_mod::lemma_mod_twice(k, n);
        }
    }
}

/// Whether buckets are sent in rounds: one, two and so on, each with as many
/// transfers as it takes, from the first again at any time, and with warm-up
/// anywhere.
pub open spec fn in_rounds(chunks: Seq<Chunk>) -> bool
    decreases chunks.len(),
{
    chunks.len() > 0 ==> {
        let before = last_bucket(chunks.drop_last());
        let bucket = chunks.last().bucket_id;
        &&& in_rounds(chunks.drop_last())
        &&& {
            ||| bucket == 0
            ||| bucket == 1
            ||| before >= 1 && (bucket == before || bucket == before + 1)
        }
    }
}

proof fn lemma_rounds_count_turns(chunks: Seq<Chunk>)
    requires
        in_rounds(chunks),
    ensures
        last_bucket(chunks) == -1 || last_bucket(chunks) >= FIRST_BUCKET_ID,
        last_bucket(chunks) >= FIRST_BUCKET_ID ==> turns(chunks) == last_bucket(chunks) - 1,
    decreases chunks.len(),
{
    if chunks.len() > 0 {
        lemma_rounds_count_turns(chunks.drop_last());
    }
}

proof fn lemma_rounds_begin(chunks: Seq<Chunk>, n: int)
    requires
        in_rounds(chunks),
        0 <= n <= chunks.len(),
    ensures
        in_rounds(chunks.take(n)),
    decreases chunks.len(),
{
    if n < chunks.len() {
        lemma_rounds_begin(chunks.drop_last(), n);
        assert(chunks.take(n) =~= chunks.drop_last().take(n));
    } else {
        assert(chunks.take(n) =~= chunks);
    }
}

/// Where buckets are sent in rounds, bucket `b` goes to storage server `b - 1`,
/// counted round and round: every transfer of it that is tagged is marked with
/// that server.
pub proof fn a_bucket_goes_to_the_server_of_its_number(
    num_storage: nat,
    chunks: Seq<Chunk>,
    i: int,
)
    requires
        0 < num_storage <= MAX_STORAGE,
        in_rounds(chunks),
        0 <= i < chunks.len(),
        chunks[i].bucket_id != WARMUP_BUCKET_ID,
    ensures
        ({
            let v = SenderView::initial(num_storage).after_all(chunks.take(i));
            let server = (chunks[i].bucket_id - 1) % (num_storage as int);
            &&& chunks[i].bucket_id >= FIRST_BUCKET_ID
            &&& v.sid_for(chunks[i].bucket_id as int) == server
            &&& v.marks(chunks[i]).dscp_bits == if chunks[i].tagged() {
                0x80 + server * 4
            } else {
                0
            }
        }),
{
    let upto = chunks.take(i + 1);
    assert(upto.drop_last() =~= chunks.take(i));
    assert(upto.last() == chunks[i]);
    lemma_rounds_begin(chunks, i + 1);
    lemma_rounds_count_turns(upto);
    buckets_take_turns(num_storage, upto);
}

/// Whoever sees the packets of a transfer can read from their marks whether it
/// is tagged, and for which storage server. The ECN bits are left clear.
pub proof fn marks_can_be_read(v: SenderView, num_storage: nat, chunk: Chunk)
    requires
        v.valid(num_storage),
    ensures
        v.marks(chunk).dscp_bits & 3 == 0,
        chunk.tagged() <==> v.marks(chunk).dscp_bits & 0x80 != 0,
        chunk.tagged() ==> (v.marks(chunk).dscp_bits >> 2) & 0x1f == v.sid_for(
            chunk.bucket_id as int,
        ),
{
    let sid = v.sid_for(chunk.bucket_id as int);
    assert(0 <= sid < 8);
    let s = sid as u8;
    let bits = v.marks(chunk).dscp_bits;
    assert(bits == 0x80 + s * 4 && s < 8 ==> bits & 3 == 0 && bits & 0x80 != 0 && (bits >> 2) & 0x1f
        == s) by (bit_vector);
    assert(0u8 & 3 == 0 && 0u8 & 0x80 == 0) by (bit_vector);
}

/// The bytes of the transfers that carry a tag and go to storage server `k`, all
/// but those of bucket zero, which warms up.
pub open spec fn tagged_length(num_storage: nat, chunks: Seq<Chunk>, k: int) -> int
    decreases chunks.len(),
{
    if chunks.len() == 0 {
        0
    } else {
        let last = chunks.last();
        tagged_length(num_storage, chunks.drop_last(), k) + if last.bucket_id != 0
            && last.chunk_tag >= 0 && turns(chunks) % (num_storage as int) == k {
            last.len as int
        } else {
            0
        }
    }
}

/// Where no transfer is longer than 32 bits can say, the offset of a storage server
/// is one more than the length of all that was tagged for it, and the next transfer
/// for it is marked with that.
pub proof fn offsets_count_the_lengths_handed_in(
    num_storage: nat,
    chunks: Seq<Chunk>,
    k: int,
    next: Chunk,
)
    requires
        0 < num_storage <= MAX_STORAGE,
        0 <= k < num_storage,
        forall|i: int| 0 <= i < chunks.len() ==> (#[trigger] chunks[i]).len <= u32::MAX,
    ensures
        ({
            let v = SenderView::initial(num_storage).after_all(chunks);
            let place = 1 + tagged_length(num_storage, chunks, k);
            &&& v.offsets[k] == place
            &&& turns(chunks.push(next)) % (num_storage as int) == k && place <= u32::MAX
                ==> v.marks(next).optional_seq == place
        }),
    decreases chunks.len(),
{
    let v = SenderView::initial(num_storage).after_all(chunks);
    if chunks.len() > 0 {
        let init = chunks.drop_last();
        assert forall|i: int| 0 <= i < init.len() implies (#[trigger] init[i]).len <= u32::MAX by {
            assert(init[i] == chunks[i]);
        }
        offsets_count_the_lengths_handed_in(num_storage, init, k, next);
        transfers_keep_a_sender_valid(num_storage, init);
        buckets_take_turns(num_storage, chunks);
        assert(chunks[chunks.len() - 1].len <= u32::MAX);
    }
    assert(chunks.push(next).drop_last() =~= chunks);
    buckets_take_turns(num_storage, chunks.push(next));
    transfers_keep_a_sender_valid(num_storage, chunks);
}

/// A sender that has sent nothing begins every offset at one, with the first
/// storage server in force and no bucket seen.
pub proof fn a_new_sender_begins_every_offset_at_one(num_storage: u8, s: SenderState, k: int)
    requires
        call_ensures(SenderState::new, (num_storage,), s),
        0 <= k < num_storage,
    ensures
        s.num_storage == num_storage,
        s.sid == 0,
        s.current_active_bucket == -1,
        s.reduced_byte_offsets@.len() == num_storage,
        s.reduced_byte_offsets@[k] == 1,
{
    assert(s@.offsets[k] == 1);
}

/// Which storage server a transfer finds in force: bucket zero leaves it as it is,
/// bucket one turns to the first, and another bucket than the last one turns to the
/// next, behind the last to the first.
pub proof fn a_change_of_bucket_turns_to_the_next_server(
    s: &mut SenderState,
    chunk: Chunk,
    storage: bool,
    plan: SendPlan,
)
    requires
        s.sid < s.num_storage,
        call_ensures(SenderState::begin, (s, chunk, storage), plan),
    ensures
        final(s).num_storage == old(s).num_storage,
        final(s).sid < final(s).num_storage,
        chunk.bucket_id == 0 ==> final(s).sid == old(s).sid && final(s).current_active_bucket
            == old(s).current_active_bucket,
        chunk.bucket_id != 0 ==> final(s).current_active_bucket == chunk.bucket_id,
        chunk.bucket_id == 1 ==> final(s).sid == 0,
        chunk.bucket_id != 0 && chunk.bucket_id != 1 && chunk.bucket_id
            == old(s).current_active_bucket ==> final(s).sid == old(s).sid,
        chunk.bucket_id != 0 && chunk.bucket_id != 1 && chunk.bucket_id
            != old(s).current_active_bucket ==> final(s).sid == if old(s).sid + 1
            < old(s).num_storage {
            old(s).sid + 1
        } else {
            0
        },
{
    let n = s.num_storage as int;
    assert(words(s.reduced_byte_offsets@).len() == n);
    assert(final(s).pending().sid == s@.sid_for(chunk.bucket_id as int));
    if s.sid + 1 < n {
        vstd::arithmetic::div_mod::lemma_small_mod((s.sid + 1) as nat, n as nat);
    } else {
        vstd::arithmetic::div_mod::lemma_mod_self_0(n);
    }
}

/// How a transfer is marked: with the offset of its storage server and, if it
/// carries a tag and is not of bucket zero, with bit 7 and the number of the server
/// from bit 2 on. Its length goes before it in full and without marks, and a copy
/// of it is handed on exactly if it is marked as tagged and there is storage.
pub proof fn a_transfer_is_marked_for_its_server(
    s: &mut SenderState,
    chunk: Chunk,
    storage: bool,
    plan: SendPlan,
)
    requires
        s.num_storage <= 8,
        s.sid < s.num_storage,
        call_ensures(SenderState::begin, (s, chunk, storage), plan),
    ensures
        plan.marks.optional_seq == old(s).reduced_byte_offsets@[final(s).sid as int],
        plan.marks.dscp_bits == if chunk.bucket_id != 0 && chunk.chunk_tag >= 0 {
            128 + 4 * final(s).sid
        } else {
            0
        },
        plan.length_marks.dscp_bits == 0,
        plan.length_marks.optional_seq == 0,
        8 * plan.length@.len() == usize::BITS,
        crate::wire::be_value(plan.length@) == chunk.len,
        plan.forward <==> storage && chunk.bucket_id != 0 && chunk.chunk_tag >= 0,
{
    crate::wire::length_survives_the_wire(chunk.len);
    let sid = s@.sid_for(chunk.bucket_id as int);
    assert(final(s).pending().sid == sid);
    assert(s@.offsets[sid] == s.reduced_byte_offsets@[sid]);
    assert(usize::BITS == 32 || usize::BITS == 64);
}

/// A transfer that carries a tag, and is not of bucket zero, moves the offset of its
/// storage server on by its length, of which 32 bits count; no other offset moves,
/// and a transfer without a tag or of bucket zero moves none.
pub proof fn a_transfer_moves_its_offset_by_its_length(
    s: &mut SenderState,
    chunk: Chunk,
    storage: bool,
    plan: SendPlan,
    t: &mut SenderState,
    k: int,
)
    requires
        call_ensures(SenderState::begin, (s, chunk, storage), plan),
        *final(s) == *t,
        call_ensures(SenderState::finish, (t,), ()),
        0 <= k < s.num_storage,
    ensures
        ({
            let moved = final(t).reduced_byte_offsets@[k] - old(s).reduced_byte_offsets@[k];
            if k == final(t).sid && chunk.bucket_id != 0 && chunk.chunk_tag >= 0 {
                &&& moved == chunk.len as int % 0x1_0000_0000
                &&& chunk.len <= u32::MAX ==> moved == chunk.len
            } else {
                moved == 0
            }
        }),
        final(t).sid == final(s).sid,
        final(s).reduced_byte_offsets@ == old(s).reduced_byte_offsets@,
{
    assert(s.reduced_byte_offsets@.len() == s.num_storage);
    assert(final(t)@.offsets[k] == final(t).reduced_byte_offsets@[k]);
    assert(s@.offsets[k] == s.reduced_byte_offsets@[k]);
    assert(final(t)@ == s@.after(chunk));
}

/// Chunks abut: of two transfers in a row for the same storage server, the second
/// is marked with the byte right behind the first if that was tagged, and with the
/// same byte if it was not.
pub proof fn the_next_transfer_begins_behind_the_last(
    s: &mut SenderState,
    first: Chunk,
    storage: bool,
    plan: SendPlan,
    t: &mut SenderState,
    u: &mut SenderState,
    second: Chunk,
    next: SendPlan,
)
    requires
        s.num_storage <= 8,
        s.sid < s.num_storage,
        call_ensures(SenderState::begin, (s, first, storage), plan),
        *final(s) == *t,
        call_ensures(SenderState::finish, (t,), ()),
        *final(t) == *u,
        call_ensures(SenderState::begin, (u, second, storage), next),
        final(u).sid == final(s).sid,
        first.len <= u32::MAX,
    ensures
        next.marks.optional_seq == plan.marks.optional_seq + if first.bucket_id != 0
            && first.chunk_tag >= 0 {
            first.len as int
        } else {
            0
        },
{
    a_change_of_bucket_turns_to_the_next_server(s, first, storage, plan);
    a_transfer_is_marked_for_its_server(s, first, storage, plan);
    a_transfer_moves_its_offset_by_its_length(s, first, storage, plan, t, final(s).sid as int);
    a_change_of_bucket_turns_to_the_next_server(u, second, storage, next);
    a_transfer_is_marked_for_its_server(u, second, storage, next);
}

/// There is room for every transfer that is not tagged, and for one that is exactly
/// if the offset that it leaves behind fits 32 bits.
pub proof fn there_is_room_while_the_offset_fits(s: &SenderState, chunk: Chunk, r: bool)
    requires
        s.num_storage > 0,
        s.reduced_byte_offsets@.len() == s.num_storage,
        s.sid < s.num_storage,
        call_ensures(SenderState::has_room_for, (s, chunk), r),
    ensures
        ({
            let sid = if chunk.bucket_id == 1 {
                0
            } else if chunk.bucket_id == s.current_active_bucket || chunk.bucket_id == 0 {
                s.sid as int
            } else {
                (s.sid + 1) % (s.num_storage as int)
            };
            r <==> chunk.bucket_id == 0 || chunk.chunk_tag < 0 || s.reduced_byte_offsets@[sid] + (
            chunk.len as int % 0x1_0000_0000) <= u32::MAX
        }),
{
    let sid = s@.sid_for(chunk.bucket_id as int);
    assert(s@.offsets[sid] == s.reduced_byte_offsets@[sid]);
}

/// A transfer is tagged exactly if its tag is not negative and its bucket not zero.
pub proof fn what_counts_as_tagged(bucket_id: i32, chunk_tag: i32, r: bool)
    requires
        call_ensures(is_tagged, (bucket_id, chunk_tag), r),
    ensures
        r <==> bucket_id != 0 && chunk_tag >= 0,
{
}

/// A sender for up to eight storage servers can be made, takes every transfer that it
/// has room for, and can then finish it.
pub proof fn a_sender_takes_what_it_has_room_for(
    num_storage: u8,
    s: &mut SenderState,
    chunk: Chunk,
    storage: bool,
    room: bool,
    plan: SendPlan,
    t: &mut SenderState,
)
    requires
        0 < num_storage <= 8,
        s.num_storage == num_storage,
        s.sid < num_storage,
        s.reduced_byte_offsets@.len() == num_storage,
        s.next_reduced_byte_offsets@ == s.reduced_byte_offsets@,
        call_ensures(SenderState::has_room_for, (&*s, chunk), room),
        call_ensures(SenderState::begin, (s, chunk, storage), plan),
        *t == *final(s),
    ensures
        call_requires(SenderState::new, (num_storage,)),
        call_requires(SenderState::has_room_for, (&*old(s), chunk)),
        room ==> call_requires(SenderState::begin, (s, chunk, storage)),
        call_requires(SenderState::finish, (t,)),
{
}

} // verus!
