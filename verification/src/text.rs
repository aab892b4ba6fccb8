//! Decimal numbers and dotted-quad addresses as text.

use vstd::prelude::*;

verus! {

/// The character that stands for the decimal digit `d`.
pub open spec fn digit_char(d: nat) -> char
    recommends
        d < 10,
{
    (48 + d) as char
}

/// Whether `c` is one of `0` to `9`.
pub open spec fn is_digit(c: char) -> bool {
    '0' <= c && c <= '9'
}

/// The number that a digit stands for.
pub open spec fn digit_value(c: char) -> nat
    recommends
        is_digit(c),
{
    (c as int - 48) as nat
}

/// `n` in decimal, without leading zeros.
pub open spec fn decimal(n: nat) -> Seq<char>
    decreases n,
{
    if n < 10 {
        seq![digit_char(n)]
    } else {
        decimal(n / 10).push(digit_char(n % 10))
    }
}

/// Whether `s` holds digits and nothing else.
pub open spec fn all_digits(s: Seq<char>) -> bool {
    forall|i: int| 0 <= i < s.len() ==> is_digit(#[trigger] s[i])
}

/// The number that a run of digits spells in base ten.
pub open spec fn digits_value(s: Seq<char>) -> nat
    decreases s.len(),
{
    if s.len() == 0 {
        0
    } else {
        digits_value(s.drop_last()) * 10 + digit_value(s.last())
    }
}

/// The text `a.b.c.d`.
pub open spec fn dotted_quad(octets: Seq<u8>) -> Seq<char>
    recommends
        octets.len() == 4,
{
    decimal(octets[0] as nat) + seq!['.'] + decimal(octets[1] as nat) + seq!['.'] + decimal(
        octets[2] as nat,
    ) + seq!['.'] + decimal(octets[3] as nat)
}

/// A single digit as text.
fn digit_str(d: u32) -> (s: &'static str)
    requires
        d < 10,
    ensures
        s@ == seq![digit_char(d as nat)],
{
    proof {
        reveal_strlit("0");
        reveal_strlit("1");
        reveal_strlit("2");
        reveal_strlit("3");
        reveal_strlit("4");
        reveal_strlit("5");
        reveal_strlit("6");
        reveal_strlit("7");
        reveal_strlit("8");
        reveal_strlit("9");
    }
    match d {
        0 => "0",
        1 => "1",
        2 => "2",
        3 => "3",
        4 => "4",
        5 => "5",
        6 => "6",
        7 => "7",
        8 => "8",
        _ => "9",
    }
}

/// Appends `n` in decimal.
pub fn push_decimal(out: &mut String, n: u32)
    ensures
        final(out)@ == old(out)@ + decimal(n as nat),
    decreases n,
{
    if n >= 10 {
        push_decimal(out, n / 10);
    }
    out.append(digit_str(n % 10));
}

/// Writes an IPv4 address the usual way.
pub fn dotted_quad_text(octets: [u8; 4]) -> (text: String)
    ensures
        text@ == dotted_quad(octets@),
{
    let mut text = String::new();
    push_decimal(&mut text, octets[0] as u32);
    text.append(".");
    push_decimal(&mut text, octets[1] as u32);
    text.append(".");
    push_decimal(&mut text, octets[2] as u32);
    text.append(".");
    push_decimal(&mut text, octets[3] as u32);
    proof {
        reveal_strlit(".");
    }
    assert(text@ =~= dotted_quad(octets@));
    text
}

/// What stands behind an optional leading `+`.
pub open spec fn after_plus(s: Seq<char>) -> Seq<char> {
    if s.len() > 0 && s[0] == '+' {
        s.skip(1)
    } else {
        s
    }
}

/// The number that `s` spells if it is a non-empty run of digits of value at
/// most `max`.
pub open spec fn bounded_digits(s: Seq<char>, max: nat) -> Option<nat> {
    if s.len() > 0 && all_digits(s) && digits_value(s) <= max {
        Some(digits_value(s))
    } else {
        None
    }
}

/// The unsigned number that `s` spells, an optional `+` and digits, if it is at
/// most `max`.
pub open spec fn unsigned_value(s: Seq<char>, max: nat) -> Option<nat> {
    bounded_digits(after_plus(s), max)
}

/// The `i32` that `s` spells, an optional sign and digits.
pub open spec fn signed_value(s: Seq<char>) -> Option<int> {
    if s.len() > 0 && s[0] == '-' {
        match bounded_digits(s.skip(1), 0x8000_0000) {
            Some(v) => Some(-(v as int)),
            None => None,
        }
    } else {
        match bounded_digits(after_plus(s), 0x7fff_ffff) {
            Some(v) => Some(v as int),
            None => None,
        }
    }
}

/// A run of digits spells no less than its own beginning does.
proof fn lemma_digits_value_grows(s: Seq<char>, n: int)
    requires
        0 <= n <= s.len(),
    ensures
        digits_value(s.take(n)) <= digits_value(s),
    decreases s.len() - n,
{
    if n < s.len() {
        lemma_digits_value_grows(s, n + 1);
        assert(s.take(n + 1).drop_last() =~= s.take(n));
    } else {
        assert(s.take(n) =~= s);
    }
}

/// Reads the characters of `s` from `start` on as a run of digits of value at
/// most `max`.
fn parse_digits(s: &str, start: usize, max: u64) -> (r: Option<u64>)
    requires
        start <= s@.len(),
        max <= 0xffff_ffff,
    ensures
        match r {
            Some(v) => bounded_digits(s@.skip(start as int), max as nat) == Some(v as nat),
            None => bounded_digits(s@.skip(start as int), max as nat) is None,
        },
{
    let len: usize = s.unicode_len();
    let ghost body = s@.skip(start as int);
    if start == len {
        return None;
    }
    let mut i: usize = start;
    let mut value: u64 = 0;
    while i < len
        invariant
            len == s@.len(),
            start <= i <= len,
            body == s@.skip(start as int),
            max <= 0xffff_ffff,
            value <= max,
            forall|j: int| 0 <= j < i - start ==> is_digit(#[trigger] body[j]),
            value == digits_value(body.take(i - start)),
        decreases len - i,
    {
        let c = s.get_char(i);
        assert(body[i - start] == c);
        if !('0' <= c && c <= '9') {
            assert(!all_digits(body));
            return None;
        }
        assert(body.take(i - start + 1).drop_last() =~= body.take(i - start));
        let next: u64 = value * 10 + (c as u64 - 48);
        if next > max {
            proof {
                lemma_digits_value_grows(body, i - start + 1);
            }
            return None;
        }
        value = next;
        i = i + 1;
    }
    assert(body.take(len - start) =~= body);
    Some(value)
}

/// Reads an unsigned number that may carry a `+`.
fn parse_unsigned(s: &str, max: u64) -> (r: Option<u64>)
    requires
        max <= 0xffff_ffff,
    ensures
        match r {
            Some(v) => unsigned_value(s@, max as nat) == Some(v as nat),
            None => unsigned_value(s@, max as nat) is None,
        },
{
    assert(s@.skip(0) =~= s@);
    if s.unicode_len() > 0 && s.get_char(0) == '+' {
        parse_digits(s, 1, max)
    } else {
        parse_digits(s, 0, max)
    }
}

/// Reads a `u8` in decimal.
pub fn parse_u8(s: &str) -> (r: Option<u8>)
    ensures
        match r {
            Some(v) => unsigned_value(s@, u8::MAX as nat) == Some(v as nat),
            None => unsigned_value(s@, u8::MAX as nat) is None,
        },
{
    match parse_unsigned(s, u8::MAX as u64) {
        Some(v) => Some(v as u8),
        None => None,
    }
}

/// Reads a `u16` in decimal.
pub fn parse_u16(s: &str) -> (r: Option<u16>)
    ensures
        match r {
            Some(v) => unsigned_value(s@, u16::MAX as nat) == Some(v as nat),
            None => unsigned_value(s@, u16::MAX as nat) is None,
        },
{
    match parse_unsigned(s, u16::MAX as u64) {
        Some(v) => Some(v as u16),
        None => None,
    }
}

/// Reads an `i32` in decimal.
pub fn parse_i32(s: &str) -> (r: Option<i32>)
    ensures
        match r {
            Some(v) => signed_value(s@) == Some(v as int),
            None => signed_value(s@) is None,
        },
{
    if s.unicode_len() > 0 && s.get_char(0) == '-' {
        match parse_digits(s, 1, 0x8000_0000) {
            Some(v) => Some((-(v as i64)) as i32),
            None => None,
        }
    } else {
        match parse_unsigned(s, 0x7fff_ffff) {
            Some(v) => Some(v as i32),
            None => None,
        }
    }
}

/// `n` in decimal is a non-empty run of digits that spells `n`, with no leading
/// zero unless it is the one digit.
proof fn lemma_decimal(n: nat)
    ensures
        decimal(n).len() >= 1,
        all_digits(decimal(n)),
        digits_value(decimal(n)) == n,
        n > 0 ==> decimal(n)[0] != '0',
    decreases n,
{
    if n < 10 {
        assert(decimal(n).drop_last() =~= Seq::empty());
        assert(digits_value(decimal(n).drop_last()) == 0);
    } else {
        lemma_decimal(n / 10);
        assert(decimal(n).drop_last() =~= decimal(n / 10));
    }
}

/// A run of digits without a superfluous leading zero is the decimal text of
/// the number it spells.
proof fn lemma_decimal_of_digits(t: Seq<char>)
    requires
        t.len() > 0,
        all_digits(t),
        t.len() == 1 || t[0] != '0',
    ensures
        decimal(digits_value(t)) == t,
        t[0] != '0' ==> digits_value(t) >= 1,
    decreases t.len(),
{
    let init = t.drop_last();
    assert(is_digit(t.last()));
    if t.len() == 1 {
        assert(digits_value(init) == 0);
        assert(decimal(digits_value(t)) =~= t);
    } else {
        assert(init[0] == t[0]);
        lemma_decimal_of_digits(init);
        assert(decimal(digits_value(t)) =~= t);
    }
}

/// Whether the longest run of digits of `s` that begins at `pos` ends at `end`
/// and is the decimal text of `n`.
spec fn octet_at(s: Seq<char>, pos: int, n: u8, end: int) -> bool {
    &&& 0 <= pos < end <= s.len()
    &&& s.subrange(pos, end) == decimal(n as nat)
    &&& end == s.len() || !is_digit(s[end])
}

/// Whether an octet stands at `pos` and a dot behind it at `end`.
spec fn octet_dot_at(s: Seq<char>, pos: int, n: u8, end: int) -> bool {
    &&& octet_at(s, pos, n, end)
    &&& end < s.len()
    &&& s[end] == '.'
}

/// At a given place at most one octet can be read.
proof fn lemma_octet_unique(s: Seq<char>, pos: int, n: u8, end: int, m: u8, stop: int)
    requires
        octet_at(s, pos, n, end),
        octet_at(s, pos, m, stop),
    ensures
        n == m,
        end == stop,
{
    lemma_decimal(n as nat);
    lemma_decimal(m as nat);
    if end < stop {
        assert(s.subrange(pos, stop)[end - pos] == s[end]);
    } else if stop < end {
        assert(s.subrange(pos, end)[stop - pos] == s[stop]);
    }
}

/// Reads the decimal text of an octet at `pos`.
fn parse_octet(s: &str, pos: usize) -> (r: Option<(u8, usize)>)
    requires
        pos <= s@.len(),
    ensures
        match r {
            Some((n, end)) => octet_at(s@, pos as int, n, end as int),
            None => forall|n: u8, end: int| !octet_at(s@, pos as int, n, end),
        },
{
    let len: usize = s.unicode_len();
    let mut i: usize = pos;
    let mut value: u32 = 0;
    assert(s@.subrange(pos as int, pos as int) =~= Seq::empty());
    while i < len
        invariant
            len == s@.len(),
            pos <= i <= len,
            value <= 255,
            all_digits(s@.subrange(pos as int, i as int)),
            value == digits_value(s@.subrange(pos as int, i as int)),
        ensures
            i == len || !is_digit(s@[i as int]),
        decreases len - i,
    {
        let c = s.get_char(i);
        if !('0' <= c && c <= '9') {
            break;
        }
        let ghost run = s@.subrange(pos as int, i + 1);
        assert(run.drop_last() =~= s@.subrange(pos as int, i as int));
        assert(all_digits(run)) by {
            assert forall|j: int| 0 <= j < run.len() implies is_digit(#[trigger] run[j]) by {
                if j < i - pos {
                    assert(run[j] == s@.subrange(pos as int, i as int)[j]);
                }
            }
        }
        let next: u32 = value * 10 + (c as u32 - 48);
        if next > 255 {
            assert forall|n: u8, end: int| !octet_at(s@, pos as int, n, end) by {
                if octet_at(s@, pos as int, n, end) {
                    let whole = s@.subrange(pos as int, end);
                    lemma_decimal(n as nat);
                    if end <= i {
                        assert(is_digit(run[end - pos]));
                    } else {
                        assert(whole.take(i + 1 - pos) =~= run);
                        lemma_digits_value_grows(whole, i + 1 - pos);
                    }
                }
            }
            return None;
        }
        value = next;
        i = i + 1;
    }
    let ghost run = s@.subrange(pos as int, i as int);
    if i == pos || (i - pos > 1 && s.get_char(pos) == '0') {
        assert forall|n: u8, end: int| !octet_at(s@, pos as int, n, end) by {
            if octet_at(s@, pos as int, n, end) {
                let whole = s@.subrange(pos as int, end);
                lemma_decimal(n as nat);
                assert(is_digit(whole[0]));
                if end < i {
                    assert(is_digit(run[end - pos]));
                } else if end > i {
                    assert(is_digit(whole[i - pos]));
                }
            }
        }
        return None;
    }
    assert(run[0] == s@[pos as int]);
    proof {
        lemma_decimal_of_digits(run);
    }
    Some((value as u8, i))
}

/// Reads an octet at `pos` that a dot follows.
fn parse_octet_dot(s: &str, pos: usize) -> (r: Option<(u8, usize)>)
    requires
        pos <= s@.len(),
    ensures
        match r {
            Some((n, end)) => octet_dot_at(s@, pos as int, n, end as int),
            None => forall|n: u8, end: int| !octet_dot_at(s@, pos as int, n, end),
        },
{
    match parse_octet(s, pos) {
        Some((n, end)) => {
            if end < s.unicode_len() && s.get_char(end) == '.' {
                return Some((n, end));
            }
            assert forall|m: u8, stop: int| !octet_dot_at(s@, pos as int, m, stop) by {
                if octet_dot_at(s@, pos as int, m, stop) {
                    lemma_octet_unique(s@, pos as int, n, end as int, m, stop);
                }
            }
            None
        },
        None => None,
    }
}

/// Where the four numbers of a dotted quad stand in its text.
spec fn quad_parts(s: Seq<char>, q: Seq<u8>) -> bool {
    let e0 = decimal(q[0] as nat).len() as int;
    let e1 = e0 + 1 + decimal(q[1] as nat).len();
    let e2 = e1 + 1 + decimal(q[2] as nat).len();
    &&& octet_dot_at(s, 0, q[0], e0)
    &&& octet_dot_at(s, e0 + 1, q[1], e1)
    &&& octet_dot_at(s, e1 + 1, q[2], e2)
    &&& octet_at(s, e2 + 1, q[3], s.len() as int)
}

proof fn lemma_quad_parts(s: Seq<char>, q: Seq<u8>)
    requires
        q.len() == 4,
        s == dotted_quad(q),
    ensures
        quad_parts(s, q),
{
    lemma_decimal(q[0] as nat);
    lemma_decimal(q[1] as nat);
    lemma_decimal(q[2] as nat);
    lemma_decimal(q[3] as nat);
    let e0 = decimal(q[0] as nat).len() as int;
    let e1 = e0 + 1 + decimal(q[1] as nat).len();
    let e2 = e1 + 1 + decimal(q[2] as nat).len();
    assert(s.subrange(0, e0) =~= decimal(q[0] as nat));
    assert(s.subrange(e0 + 1, e1) =~= decimal(q[1] as nat));
    assert(s.subrange(e1 + 1, e2) =~= decimal(q[2] as nat));
    assert(s.subrange(e2 + 1, s.len() as int) =~= decimal(q[3] as nat));
}

/// Whether `s` is the text of no address.
pub open spec fn is_no_quad(s: Seq<char>) -> bool {
    forall|q: Seq<u8>| q.len() == 4 ==> s != #[trigger] dotted_quad(q)
}

/// Reads an IPv4 address: four octets in decimal between dots, with no leading
/// zeros and nothing around them.
pub fn parse_ipv4(s: &str) -> (r: Option<[u8; 4]>)
    ensures
        match r {
            Some(q) => s@ == dotted_quad(q@),
            None => is_no_quad(s@),
        },
{
    assert forall|q: Seq<u8>| q.len() == 4 && s@ == #[trigger] dotted_quad(q) implies quad_parts(
        s@,
        q,
    ) by {
        lemma_quad_parts(s@, q);
    }
    assert forall|pos: int, n: u8, end: int, m: u8, stop: int| #[trigger]
        octet_at(s@, pos, n, end) && #[trigger] octet_at(s@, pos, m, stop) implies n == m && end
        == stop by {
        lemma_octet_unique(s@, pos, n, end, m, stop);
    }
    let len: usize = s.unicode_len();
    let (a, e0) = match parse_octet_dot(s, 0) {
        Some(part) => part,
        None => return None,
    };
    let (b, e1) = match parse_octet_dot(s, e0 + 1) {
        Some(part) => part,
        None => return None,
    };
    let (c, e2) = match parse_octet_dot(s, e1 + 1) {
        Some(part) => part,
        None => return None,
    };
    let (d, e3) = match parse_octet(s, e2 + 1) {
        Some(part) => part,
        None => return None,
    };
    if e3 != len {
        return None;
    }
    let q: [u8; 4] = [a, b, c, d];
    assert(s@ =~= s@.subrange(0, e0 as int) + seq!['.'] + s@.subrange(e0 + 1, e1 as int) + seq!['.']
        + s@.subrange(e1 + 1, e2 as int) + seq!['.'] + s@.subrange(e2 + 1, e3 as int));
    Some(q)
}

/// Whether a text begins with another.
pub open spec fn has_prefix(s: Seq<char>, prefix: Seq<char>) -> bool {
    prefix.len() <= s.len() && s.take(prefix.len() as int) == prefix
}

/// Tests for a prefix, character by character.
pub fn starts_with(s: &str, prefix: &str) -> (r: bool)
    ensures
        r == has_prefix(s@, prefix@),
{
    let n: usize = prefix.unicode_len();
    if s.unicode_len() < n {
        return false;
    }
    let mut i: usize = 0;
    while i < n
        invariant
            n == prefix@.len(),
            n <= s@.len(),
            i <= n,
            forall|j: int| 0 <= j < i ==> s@[j] == prefix@[j],
        decreases n - i,
    {
        if s.get_char(i) != prefix.get_char(i) {
            assert(s@.take(n as int)[i as int] != prefix@[i as int]);
            return false;
        }
        i = i + 1;
    }
    assert(s@.take(n as int) =~= prefix@);
    true
}

/// A number written in decimal is read as that number.
pub proof fn decimal_reads_back(n: nat, max: nat)
    requires
        n <= max,
    ensures
        unsigned_value(decimal(n), max) == Some(n),
        n <= i32::MAX ==> signed_value(decimal(n)) == Some(n as int),
{
    lemma_decimal(n);
    assert(is_digit(decimal(n)[0]));
}

/// Different addresses are different texts.
pub proof fn dotted_quad_is_injective(p: Seq<u8>, q: Seq<u8>)
    requires
        p.len() == 4,
        q.len() == 4,
        dotted_quad(p) == dotted_quad(q),
    ensures
        p == q,
{
    let s = dotted_quad(p);
    lemma_quad_parts(s, p);
    lemma_quad_parts(s, q);
    let e0 = decimal(p[0] as nat).len() as int;
    let e1 = e0 + 1 + decimal(p[1] as nat).len();
    let e2 = e1 + 1 + decimal(p[2] as nat).len();
    lemma_octet_unique(s, 0, p[0], e0, q[0], decimal(q[0] as nat).len() as int);
    lemma_octet_unique(s, e0 + 1, p[1], e1, q[1], e0 + 1 + decimal(q[1] as nat).len());
    lemma_octet_unique(s, e1 + 1, p[2], e2, q[2], e1 + 1 + decimal(q[2] as nat).len());
    lemma_octet_unique(s, e2 + 1, p[3], s.len() as int, q[3], s.len() as int);
    assert(p =~= q);
}

/// `n` in decimal, with a sign if it is negative.
pub open spec fn signed_decimal(n: int) -> Seq<char> {
    if n < 0 {
        seq!['-'] + decimal((-n) as nat)
    } else {
        decimal(n as nat)
    }
}

/// A signed number written in decimal is read as that number.
pub proof fn signed_decimal_reads_back(n: i32)
    ensures
        signed_value(signed_decimal(n as int)) == Some(n as int),
{
    if n < 0 {
        let m = (-n) as nat;
        lemma_decimal(m);
        assert(signed_decimal(n as int).skip(1) =~= decimal(m));
    } else {
        decimal_reads_back(n as nat, i32::MAX as nat);
    }
}

/// One more digit counts what was spelled before ten times.
pub proof fn each_digit_makes_room_for_the_next(s: Seq<char>, c: char)
    requires
        '0' <= c,
        c <= '9',
    ensures
        digits_value(Seq::empty()) == 0,
        digits_value(s.push(c)) == digits_value(s) * 10 + (c as int - '0' as int),
{
    assert(s.push(c).drop_last() =~= s);
}

/// A number is written, behind what is there, as the digits that spell it, and with
/// no zero in front of others.
pub proof fn a_number_is_written_as_its_digits(out: &mut String, n: u32)
    requires
        call_ensures(push_decimal, (out, n), ()),
    ensures
        ({
            let len = old(out)@.len() as int;
            let digits = final(out)@.skip(len);
            &&& final(out)@.take(len) == old(out)@
            &&& digits.len() > 0
            &&& forall|i: int|
                0 <= i < digits.len() ==> '0' <= #[trigger] digits[i] && digits[i] <= '9'
            &&& digits_value(digits) == n
            &&& digits.len() > 1 ==> digits[0] != '0'
        }),
{
    lemma_decimal(n as nat);
    let digits = decimal(n as nat);
    assert(final(out)@.take(out@.len() as int) =~= out@);
    assert(final(out)@.skip(out@.len() as int) =~= digits);
    assert(forall|i: int| 0 <= i < digits.len() ==> is_digit(#[trigger] digits[i]));
    if n == 0 {
        assert(digits.len() == 1);
    }
}

/// Whether `s` is one sign or more, each one of `0` to `9`.
pub open spec fn is_run_of_digits(s: Seq<char>) -> bool {
    &&& s.len() > 0
    &&& forall|i: int| 0 <= i < s.len() ==> '0' <= #[trigger] s[i] && s[i] <= '9'
}

proof fn lemma_run_of_digits(s: Seq<char>)
    ensures
        is_run_of_digits(s) <==> s.len() > 0 && all_digits(s),
{
    if all_digits(s) {
        assert(forall|i: int| 0 <= i < s.len() ==> is_digit(#[trigger] s[i]));
    }
}

/// What is read as an unsigned number: digits, behind a plus or not, that spell no
/// more than the type holds; and nothing else is.
pub proof fn what_is_read_as_unsigned(
    s: &str,
    body: Seq<char>,
    small: Option<u8>,
    large: Option<u16>,
)
    requires
        s@ == seq!['+'] + body || s@ == body && !(body.len() > 0 && body[0] == '+'),
        call_ensures(parse_u8, (s,), small),
        call_ensures(parse_u16, (s,), large),
    ensures
        small is Some <==> is_run_of_digits(body) && digits_value(body) <= 255,
        small is Some ==> small->0 == digits_value(body),
        large is Some <==> is_run_of_digits(body) && digits_value(body) <= 65535,
        large is Some ==> large->0 == digits_value(body),
{
    assert((seq!['+'] + body).skip(1) =~= body);
    assert(after_plus(s@) == body);
    lemma_run_of_digits(body);
}

/// What is read as a signed number: digits, behind a plus, a minus or neither, that
/// spell a number which 32 bits hold; and nothing else is.
pub proof fn what_is_read_as_signed(s: &str, body: Seq<char>, r: Option<i32>)
    requires
        s@ == seq!['+'] + body || s@ == seq!['-'] + body || s@ == body && !(body.len() > 0 && (
        body[0] == '+' || body[0] == '-')),
        call_ensures(parse_i32, (s,), r),
    ensures
        s@ == seq!['-'] + body ==> {
            &&& r is Some <==> is_run_of_digits(body) && digits_value(body) <= 0x8000_0000
            &&& r is Some ==> r->0 == -(digits_value(body) as int)
        },
        s@ != seq!['-'] + body ==> {
            &&& r is Some <==> is_run_of_digits(body) && digits_value(body) <= 0x7fff_ffff
            &&& r is Some ==> r->0 == digits_value(body)
        },
{
    assert((seq!['+'] + body).skip(1) =~= body);
    assert((seq!['-'] + body).skip(1) =~= body);
    lemma_run_of_digits(body);
    if s@ == seq!['-'] + body {
        assert(s@[0] == '-');
    } else if s@ == seq!['+'] + body {
        assert(s@[0] == '+');
        assert(after_plus(s@) == body);
    } else {
        assert(after_plus(s@) == body);
    }
}

/// An address is written as its four numbers in decimal, with dots between them.
pub proof fn an_address_is_four_numbers_between_dots(octets: [u8; 4], text: String)
    requires
        call_ensures(dotted_quad_text, (octets,), text),
    ensures
        text@ == decimal(octets@[0] as nat) + "."@ + decimal(octets@[1] as nat) + "."@ + decimal(
            octets@[2] as nat,
        ) + "."@ + decimal(octets@[3] as nat),
{
    reveal_strlit(".");
    assert("."@ =~= seq!['.']);
}

/// Reading and writing an address undo each other: what was written is read as it
/// was, and what can be read is just what would be written.
pub proof fn an_address_is_read_as_it_was_written(
    octets: [u8; 4],
    text: String,
    s: &str,
    r: Option<[u8; 4]>,
)
    requires
        call_ensures(dotted_quad_text, (octets,), text),
        call_ensures(parse_ipv4, (s,), r),
    ensures
        s@ == text@ <==> r is Some && r->0@ == octets@,
{
    assert(octets@.len() == 4);
    if s@ == text@ {
        assert(s@ == dotted_quad(octets@));
        dotted_quad_is_injective(r->0@, octets@);
    }
}

/// A text begins with another exactly if it is that and something behind it.
pub proof fn what_a_text_begins_with(s: &str, prefix: &str, r: bool)
    requires
        call_ensures(starts_with, (s, prefix), r),
    ensures
        r <==> exists|rest: Seq<char>| s@ == #[trigger] (prefix@ + rest),
{
    let n = prefix@.len() as int;
    if r {
        assert(s@ =~= prefix@ + s@.skip(n));
    }
    if exists|rest: Seq<char>| s@ == #[trigger] (prefix@ + rest) {
        let rest = choose|rest: Seq<char>| s@ == #[trigger] (prefix@ + rest);
        assert(s@.take(n) =~= prefix@);
    }
}

/// An address is made of digits and dots.
pub(crate) proof fn lemma_quad_has_no(q: Seq<u8>, c: char)
    requires
        q.len() == 4,
        !is_digit(c),
        c != '.',
    ensures
        !dotted_quad(q).contains(c),
        forall|i: int| 0 <= i < dotted_quad(q).len() ==> #[trigger] dotted_quad(q)[i] != c,
{
    lemma_decimal(q[0] as nat);
    lemma_decimal(q[1] as nat);
    lemma_decimal(q[2] as nat);
    lemma_decimal(q[3] as nat);
    let s = dotted_quad(q);
    let a = decimal(q[0] as nat);
    let b = decimal(q[1] as nat);
    let d = decimal(q[2] as nat);
    let e = decimal(q[3] as nat);
    assert(s =~= a + seq!['.'] + b + seq!['.'] + d + seq!['.'] + e);
    let e0 = a.len() as int;
    let e1 = e0 + 1 + b.len();
    let e2 = e1 + 1 + d.len();
    assert forall|i: int| 0 <= i < s.len() implies #[trigger] s[i] != c by {
        if i < e0 {
            assert(s[i] == a[i] && is_digit(a[i]));
        } else if i == e0 {
        } else if i < e1 {
            assert(s[i] == b[i - e0 - 1] && is_digit(b[i - e0 - 1]));
        } else if i == e1 {
        } else if i < e2 {
            assert(s[i] == d[i - e1 - 1] && is_digit(d[i - e1 - 1]));
        } else if i == e2 {
        } else {
            assert(s[i] == e[i - e2 - 1] && is_digit(e[i - e2 - 1]));
        }
    }
}

} // verus!
