//! What travels on the wire beside the payload: the length that announces a
//! transfer and the header that announces a mirrored chunk.

use vstd::prelude::*;

verus! {

/// The number that bytes in network order spell.
pub open spec fn be_value(bytes: Seq<u8>) -> nat
    decreases bytes.len(),
{
    if bytes.len() == 0 {
        0
    } else {
        be_value(bytes.drop_last()) * 256 + bytes.last() as nat
    }
}

/// The four bytes of `n` in two's complement, lowest first.
pub open spec fn i32_le_bytes(n: i32) -> Seq<u8> {
    let u = if n < 0 {
        n + 0x1_0000_0000
    } else {
        n as int
    };
    seq![(u % 256) as u8, (u / 0x100 % 256) as u8, (u / 0x1_0000 % 256) as u8, (u / 0x100_0000) as u8]
}

/// The number of bytes in which a length travels: as many as a machine word has.
pub open spec fn len_width() -> nat {
    (usize::BITS / 8) as nat
}

/// The lowest `width` bytes of `n`, most significant first.
pub open spec fn be_bytes(n: nat, width: nat) -> Seq<u8>
    decreases width,
{
    if width == 0 {
        Seq::empty()
    } else {
        be_bytes(n / 256, (width - 1) as nat).push((n % 256) as u8)
    }
}

/// How many numbers `width` bytes can tell apart.
spec fn power_of_256(width: nat) -> nat
    decreases width,
{
    if width == 0 {
        1
    } else {
        256 * power_of_256((width - 1) as nat)
    }
}

proof fn lemma_word_range()
    ensures
        power_of_256(len_width()) == usize::MAX + 1,
{
    reveal_with_fuel(power_of_256, 9);
    assert(usize::BITS == 32 || usize::BITS == 64);
}

/// Bytes in network order spell less than their number allows.
proof fn lemma_be_value_bound(s: Seq<u8>)
    ensures
        be_value(s) < power_of_256(s.len()),
    decreases s.len(),
{
    if s.len() > 0 {
        lemma_be_value_bound(s.drop_last());
    }
}

/// Bytes spell no less than their own beginning does.
proof fn lemma_be_value_grows(s: Seq<u8>, n: int)
    requires
        0 <= n <= s.len(),
    ensures
        be_value(s.take(n)) <= be_value(s),
    decreases s.len() - n,
{
    if n < s.len() {
        lemma_be_value_grows(s, n + 1);
        assert(s.take(n + 1).drop_last() =~= s.take(n));
    } else {
        assert(s.take(n) =~= s);
    }
}

proof fn lemma_be_bytes(n: nat, width: nat)
    requires
        n < power_of_256(width),
    ensures
        be_bytes(n, width).len() == width,
        be_value(be_bytes(n, width)) == n,
    decreases width,
{
    if width > 0 {
        lemma_be_bytes(n / 256, (width - 1) as nat);
        assert(be_bytes(n, width).drop_last() =~= be_bytes(n / 256, (width - 1) as nat));
    }
}

fn push_be_bytes(out: &mut Vec<u8>, n: usize, width: usize)
    ensures
        final(out)@ == old(out)@ + be_bytes(n as nat, width as nat),
    decreases width,
{
    if width > 0 {
        push_be_bytes(out, n / 256, width - 1);
        out.push((n % 256) as u8);
    }
    assert(out@ =~= old(out)@ + be_bytes(n as nat, width as nat));
}

/// The length that goes before each transfer, most significant byte first.
pub fn encode_len(len: usize) -> (bytes: Vec<u8>)
    ensures
        bytes@ == be_bytes(len as nat, len_width()),
        bytes@.len() == len_width(),
        be_value(bytes@) == len,
{
    let mut bytes: Vec<u8> = Vec::new();
    push_be_bytes(&mut bytes, len, (usize::BITS / 8) as usize);
    proof {
        lemma_word_range();
        lemma_be_bytes(len as nat, len_width());
    }
    assert(bytes@ =~= be_bytes(len as nat, len_width()));
    bytes
}

/// The length that the bytes before a transfer announce.
pub fn decode_len(bytes: &[u8]) -> (len: usize)
    requires
        bytes@.len() == len_width(),
    ensures
        len == be_value(bytes@),
{
    let width: usize = bytes.len();
    let mut i: usize = 0;
    let mut len: usize = 0;
    proof {
        lemma_word_range();
        lemma_be_value_bound(bytes@);
    }
    while i < width
        invariant
            width == bytes@.len(),
            i <= width,
            be_value(bytes@) <= usize::MAX,
            len == be_value(bytes@.take(i as int)),
        decreases width - i,
    {
        assert(bytes@.take(i + 1).drop_last() =~= bytes@.take(i as int));
        proof {
            lemma_be_value_grows(bytes@, i + 1);
        }
        len = len * 256 + bytes[i] as usize;
        i = i + 1;
    }
    assert(bytes@.take(width as int) =~= bytes@);
    len
}

/// Reading the bytes of a length gives the length back.
pub proof fn length_survives_the_wire(len: usize)
    ensures
        be_bytes(len as nat, len_width()).len() == len_width(),
        be_value(be_bytes(len as nat, len_width())) == len,
{
    lemma_word_range();
    lemma_be_bytes(len as nat, len_width());
}

/// What the bytes before a transfer announce is a length.
pub proof fn what_is_announced_is_a_length(bytes: Seq<u8>)
    requires
        bytes.len() == len_width(),
    ensures
        be_value(bytes) <= usize::MAX,
{
    lemma_word_range();
    lemma_be_value_bound(bytes);
}

/// Bytes in network order can be told from what they spell: no two sequences of
/// the same width spell the same number.
pub proof fn be_value_is_injective(a: Seq<u8>, b: Seq<u8>)
    requires
        a.len() == b.len(),
        be_value(a) == be_value(b),
    ensures
        a == b,
    decreases a.len(),
{
    if a.len() > 0 {
        be_value_is_injective(a.drop_last(), b.drop_last());
        assert(a =~= a.drop_last().push(a.last()));
        assert(b =~= b.drop_last().push(b.last()));
    } else {
        assert(a =~= b);
    }
}

/// Announces to a storage server where a chunk goes and how long it is.
#[derive(Clone, Copy, Debug, PartialEq, Eq, Structural)]
pub struct ChunkInfo {
    pub chunk_offset: i32,
    pub chunk_size: i32,
}

impl ChunkInfo {
    /// The header as bytes: both numbers in four bytes each, lowest byte first.
    pub open spec fn bytes(self) -> Seq<u8> {
        i32_le_bytes(self.chunk_offset) + i32_le_bytes(self.chunk_size)
    }

    /// The bytes of the header, which are those of the pair of its fields: in
    /// bincode the fields of a struct follow each other as those of a tuple do.
    pub fn to_bytes(&self) -> (bytes: Vec<u8>)
        ensures
            bytes@ == self.bytes(),
    {
        serialize_pair(self.chunk_offset, self.chunk_size)
    }
}

/// Calls `bincode::serialize` on a pair of `i32`. It writes the fields of a
/// tuple one after the other with nothing between them, each integer at its
/// full width and in little-endian order, without a limit on the size, and does
/// not fail on integers.
#[verifier::external_body]
fn serialize_pair(first: i32, second: i32) -> (bytes: Vec<u8>)
    ensures
        bytes@ == i32_le_bytes(first) + i32_le_bytes(second),
{
    bincode::serialize(&(first, second)).unwrap()
}

/// The number in two's complement is the sum of its bytes.
proof fn lemma_i32_le_sum(n: i32)
    ensures
        ({
            let b = i32_le_bytes(n);
            b[0] + b[1] * 0x100 + b[2] * 0x1_0000 + b[3] * 0x100_0000 == if n < 0 {
                n + 0x1_0000_0000
            } else {
                n as int
            }
        }),
{
}

/// A header can be read back: different headers are different bytes.
pub proof fn chunk_info_bytes_are_injective(a: ChunkInfo, b: ChunkInfo)
    ensures
        a.bytes().len() == 8,
        a.bytes() == b.bytes() ==> a == b,
{
    if a.bytes() == b.bytes() {
        assert(i32_le_bytes(a.chunk_offset) =~= a.bytes().take(4));
        assert(i32_le_bytes(b.chunk_offset) =~= b.bytes().take(4));
        assert(i32_le_bytes(a.chunk_size) =~= a.bytes().skip(4));
        assert(i32_le_bytes(b.chunk_size) =~= b.bytes().skip(4));
        lemma_i32_le_sum(a.chunk_offset);
        lemma_i32_le_sum(b.chunk_offset);
        lemma_i32_le_sum(a.chunk_size);
        lemma_i32_le_sum(b.chunk_size);
    }
}

proof fn lemma_be_bytes_place(n: nat, width: nat, i: int)
    requires
        0 <= i < width,
    ensures
        be_bytes(n, width).len() == width,
        be_bytes(n, width)[i] == n as int / vstd::arithmetic::power::pow(
            256,
            (width - 1 - i) as nat,
        ) % 256,
    decreases width,
{
    reveal(vstd::arithmetic::power::pow);
    let shorter = be_bytes(n / 256, (width - 1) as nat);
    if width == 1 {
        assert(shorter.len() == 0);
    } else if i == width - 1 {
        lemma_be_bytes_place(n / 256, (width - 1) as nat, 0);
    } else {
        lemma_be_bytes_place(n / 256, (width - 1) as nat, i);
        let k = (width - 2 - i) as nat;
        vstd::arithmetic::power::lemma_pow_positive(256, k);
        vstd::arithmetic::div_mod::lemma_div_denominator(
            n as int,
            256,
            vstd::arithmetic::power::pow(256, k),
        );
    }
}

/// A length is written in network order, in as many bytes as a machine word has:
/// each byte says how often its power of 256 goes into the length.
pub proof fn a_length_is_written_in_network_order(len: usize, bytes: Vec<u8>, i: int)
    requires
        call_ensures(encode_len, (len,), bytes),
        0 <= i < bytes@.len(),
    ensures
        8 * bytes@.len() == usize::BITS,
        bytes@[i] == len as int / vstd::arithmetic::power::pow(
            256,
            (bytes@.len() - 1 - i) as nat,
        ) % 256,
{
    assert(usize::BITS == 32 || usize::BITS == 64);
    lemma_be_bytes_place(len as nat, len_width(), i);
}

/// A length that was written is read as it was.
pub proof fn a_length_is_read_as_it_was_written(
    len: usize,
    bytes: Vec<u8>,
    arrived: &[u8],
    back: usize,
)
    requires
        call_ensures(encode_len, (len,), bytes),
        arrived@ == bytes@,
        call_ensures(decode_len, (arrived,), back),
    ensures
        back == len,
{
}

/// One more byte counts what was spelled before 256 times.
pub proof fn each_byte_makes_room_for_the_next(bytes: Seq<u8>, b: u8)
    ensures
        be_value(Seq::empty()) == 0,
        be_value(bytes.push(b)) == be_value(bytes) * 256 + b,
{
    assert(bytes.push(b).drop_last() =~= bytes);
}

/// Each half of a header spells a field in two's complement.
pub(crate) proof fn lemma_header_sums(info: ChunkInfo)
    ensures
        ({
            let b = info.bytes();
            let first = b[0] + b[1] * 0x100 + b[2] * 0x1_0000 + b[3] * 0x100_0000;
            let second = b[4] + b[5] * 0x100 + b[6] * 0x1_0000 + b[7] * 0x100_0000;
            &&& b.len() == 8
            &&& first == if info.chunk_offset < 0 {
                info.chunk_offset + 0x1_0000_0000
            } else {
                info.chunk_offset as int
            }
            &&& second == if info.chunk_size < 0 {
                info.chunk_size + 0x1_0000_0000
            } else {
                info.chunk_size as int
            }
        }),
{
    lemma_i32_le_sum(info.chunk_offset);
    lemma_i32_le_sum(info.chunk_size);
    let b = info.bytes();
    let x = i32_le_bytes(info.chunk_offset);
    let y = i32_le_bytes(info.chunk_size);
    assert(b[0] == x[0] && b[1] == x[1] && b[2] == x[2] && b[3] == x[3]);
    assert(b[4] == y[0] && b[5] == y[1] && b[6] == y[2] && b[7] == y[3]);
}

/// A header is eight bytes, and each half of it, read from its last byte to its
/// first, spells a field in two's complement: the offset, then the size.
pub proof fn a_header_spells_its_fields(info: &ChunkInfo, bytes: Vec<u8>)
    requires
        call_ensures(ChunkInfo::to_bytes, (info,), bytes),
    ensures
        ({
            let b = bytes@;
            let first = b[0] + b[1] * 0x100 + b[2] * 0x1_0000 + b[3] * 0x100_0000;
            let second = b[4] + b[5] * 0x100 + b[6] * 0x1_0000 + b[7] * 0x100_0000;
            &&& b.len() == 8
            &&& first == info.chunk_offset || first == info.chunk_offset + 0x1_0000_0000
            &&& second == info.chunk_size || second == info.chunk_size + 0x1_0000_0000
        }),
{
    lemma_header_sums(*info);
}

/// As many bytes as a machine word has can be read as a length, whatever they are.
pub proof fn every_word_of_bytes_can_be_read(bytes: &[u8])
    requires
        8 * bytes@.len() == usize::BITS,
    ensures
        call_requires(decode_len, (bytes,)),
{
    assert(usize::BITS == 32 || usize::BITS == 64);
}

} // verus!
