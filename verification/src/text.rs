//! Byte-level text helpers: ASCII whitespace trimming and decimal port
//! parsing, the two ingredients of the handshake line.

use vstd::prelude::*;

verus! {

/// The ASCII whitespace bytes: tab, line feed, vertical tab, form feed,
/// carriage return, and space.
pub open spec fn is_space(b: u8) -> bool {
    b == 32 || (9 <= b && b <= 13)
}

/// `s` with leading whitespace removed.
pub open spec fn trim_start(s: Seq<u8>) -> Seq<u8>
    decreases s.len(),
{
    if s.len() > 0 && is_space(s[0]) {
        trim_start(s.drop_first())
    } else {
        s
    }
}

/// `s` with trailing whitespace removed.
pub open spec fn trim_end(s: Seq<u8>) -> Seq<u8>
    decreases s.len(),
{
    if s.len() > 0 && is_space(s.last()) {
        trim_end(s.drop_last())
    } else {
        s
    }
}

/// `s` with whitespace removed on both sides.
pub open spec fn trimmed(s: Seq<u8>) -> Seq<u8> {
    trim_end(trim_start(s))
}

/// Skipping a fully-whitespace front segment is all that `trim_start` does:
/// if everything before `i` is whitespace and `i` is the first non-whitespace
/// position (or the end), the result is the tail from `i`.
pub proof fn lemma_trim_start_skip(s: Seq<u8>, i: int)
    requires
        0 <= i <= s.len(),
        forall|k: int| 0 <= k < i ==> is_space(s[k]),
        i < s.len() ==> !is_space(s[i]),
    ensures
        trim_start(s) == s.subrange(i, s.len() as int),
    decreases i,
{
    if i == 0 {
        assert(s.subrange(0, s.len() as int) =~= s);
    } else {
        lemma_trim_start_skip(s.drop_first(), i - 1);
        assert(s.drop_first().subrange(i - 1, s.drop_first().len() as int) =~= s.subrange(
            i,
            s.len() as int,
        ));
    }
}

/// Dropping a fully-whitespace back segment is all that `trim_end` does:
/// if everything from `j` on is whitespace and `j` is just past the last
/// non-whitespace position (or zero), the result is the front up to `j`.
pub proof fn lemma_trim_end_skip(s: Seq<u8>, j: int)
    requires
        0 <= j <= s.len(),
        forall|k: int| j <= k < s.len() ==> is_space(s[k]),
        j > 0 ==> !is_space(s[j - 1]),
    ensures
        trim_end(s) == s.subrange(0, j),
    decreases s.len() - j,
{
    if j == s.len() {
        assert(s.subrange(0, s.len() as int) =~= s);
    } else {
        lemma_trim_end_skip(s.drop_last(), j);
        assert(s.drop_last().subrange(0, j) =~= s.subrange(0, j));
    }
}

/// Whether `b` is one of the whitespace bytes that trimming removes.
pub fn is_space_byte(b: u8) -> (r: bool)
    ensures
        r == is_space(b),
{
    b == 32 || (9 <= b && b <= 13)
}

/// Copies `line` with leading and trailing ASCII whitespace removed.
pub fn trim_bytes(line: &[u8]) -> (t: Vec<u8>)
    ensures
        t@ == trimmed(line@),
{
    let mut lo: usize = 0;
    while lo < line.len() && is_space_byte(line[lo])
        invariant
            0 <= lo <= line@.len(),
            forall|k: int| 0 <= k < lo ==> is_space(line@[k]),
        decreases line@.len() - lo,
    {
        lo = lo + 1;
    }
    proof {
        lemma_trim_start_skip(line@, lo as int);
    }
    let ghost front = line@.subrange(lo as int, line@.len() as int);
    let mut hi: usize = line.len();
    while hi > lo && is_space_byte(line[hi - 1])
        invariant
            lo <= hi <= line@.len(),
            forall|k: int| hi <= k < line@.len() ==> is_space(line@[k]),
        decreases hi,
    {
        hi = hi - 1;
    }
    proof {
        lemma_trim_end_skip(front, hi - lo);
        assert(front.subrange(0, hi - lo) =~= line@.subrange(lo as int, hi as int));
    }
    let mut t: Vec<u8> = Vec::new();
    let mut k: usize = lo;
    while k < hi
        invariant
            lo <= k <= hi <= line@.len(),
            t@ == line@.subrange(lo as int, k as int),
        decreases hi - k,
    {
        t.push(line[k]);
        proof {
            assert(line@.subrange(lo as int, k as int).push(line@[k as int]) =~= line@.subrange(
                lo as int,
                k + 1,
            ));
        }
        k = k + 1;
    }
    t
}

/// The tail of `t` from position `i` on, as a fresh vector.
pub fn suffix_from(t: &Vec<u8>, i: usize) -> (r: Vec<u8>)
    requires
        i <= t@.len(),
    ensures
        r@ == t@.subrange(i as int, t@.len() as int),
{
    let mut r: Vec<u8> = Vec::new();
    let mut k: usize = i;
    while k < t.len()
        invariant
            i <= k <= t@.len(),
            r@ == t@.subrange(i as int, k as int),
        decreases t@.len() - k,
    {
        r.push(t[k]);
        proof {
            assert(t@.subrange(i as int, k as int).push(t@[k as int]) =~= t@.subrange(
                i as int,
                k + 1,
            ));
        }
        k = k + 1;
    }
    r
}

/// The ASCII decimal digits.
pub open spec fn is_digit(b: u8) -> bool {
    48 <= b && b <= 57
}

/// Whether `s` is a non-empty run of decimal digits.
pub open spec fn all_digits(s: Seq<u8>) -> bool {
    s.len() > 0 && forall|k: int| 0 <= k < s.len() ==> is_digit(s[k])
}

/// The numeric value of a run of decimal digits, most significant first.
pub open spec fn dec_value(s: Seq<u8>) -> nat
    decreases s.len(),
{
    if s.len() == 0 {
        0
    } else {
        dec_value(s.drop_last()) * 10 + (s.last() - 48) as nat
    }
}

/// Reading further digits never shrinks the value: the value of a prefix of a
/// digit run bounds the value of the whole run.
pub proof fn lemma_dec_value_prefix_le(s: Seq<u8>, i: int)
    requires
        0 <= i <= s.len(),
    ensures
        dec_value(s.take(i)) <= dec_value(s),
    decreases s.len() - i,
{
    if i == s.len() {
        assert(s.take(i) =~= s);
    } else {
        assert(s.take(i + 1).drop_last() =~= s.take(i));
        assert(s.take(i + 1).last() == s[i]);
        lemma_dec_value_prefix_le(s, i + 1);
    }
}

/// The digit run of a trimmed number: an unsigned value may carry one
/// leading plus sign, which does not change it.
pub open spec fn digits_part(t: Seq<u8>) -> Seq<u8> {
    if t.len() > 0 && t[0] == 43 {
        t.drop_first()
    } else {
        t
    }
}

/// The decimal value, trimmed and bounded: whether `s`, after trimming
/// whitespace and allowing one leading plus sign, is a run of digits whose
/// value fits an unsigned 16-bit port.
pub open spec fn parse_port(s: Seq<u8>) -> Option<u16> {
    let d = digits_part(trimmed(s));
    if all_digits(d) && dec_value(d) <= 65535 {
        Some(dec_value(d) as u16)
    } else {
        None
    }
}

/// A digit run surrounded by arbitrary whitespace parses to its value: for
/// any run of decimal digits whose value fits 16 bits, padding it with
/// whitespace on either side leaves exactly that value to `parse_port`.
pub proof fn lemma_parse_port_padded(ws1: Seq<u8>, digits: Seq<u8>, ws2: Seq<u8>)
    requires
        forall|k: int| 0 <= k < ws1.len() ==> is_space(ws1[k]),
        forall|k: int| 0 <= k < ws2.len() ==> is_space(ws2[k]),
        all_digits(digits),
        dec_value(digits) <= 65535,
    ensures
        parse_port(ws1 + digits + ws2) == Some(dec_value(digits) as u16),
{
    let s = ws1 + digits + ws2;
    assert forall|k: int| 0 <= k < ws1.len() implies is_space(s[k]) by {
        assert(s[k] == ws1[k]);
    }
    assert(s[ws1.len() as int] == digits[0]);
    assert(is_digit(digits[0]) && !is_space(digits[0]));
    lemma_trim_start_skip(s, ws1.len() as int);
    let front = s.subrange(ws1.len() as int, s.len() as int);
    assert(front =~= digits + ws2);
    lemma_trim_end_skip(front, digits.len() as int);
    assert(front.subrange(0, digits.len() as int) =~= digits);
    assert(digits_part(digits) == digits);
}

/// Parses `s`, after trimming surrounding whitespace, as a decimal port
/// number: `Some` exactly on non-empty digit runs (one leading plus sign
/// allowed) whose value fits 16 bits.
pub fn parse_port_bytes(s: &[u8]) -> (r: Option<u16>)
    ensures
        r == parse_port(s@),
{
    let t = trim_bytes(s);
    if t.len() == 0 {
        return None;
    }
    let start: usize = if t[0] == 43 {
        1
    } else {
        0
    };
    let d = suffix_from(&t, start);
    proof {
        if start == 1 {
            assert(trimmed(s@).drop_first() =~= t@.subrange(1, t@.len() as int));
        } else {
            assert(t@.subrange(0, t@.len() as int) =~= t@);
        }
        assert(d@ == digits_part(trimmed(s@)));
    }
    if d.len() == 0 {
        return None;
    }
    let mut acc: u32 = 0;
    let mut k: usize = 0;
    while k < d.len()
        invariant
            0 <= k <= d@.len(),
            d@ == digits_part(trimmed(s@)),
            d@.len() > 0,
            forall|j: int| 0 <= j < k ==> is_digit(d@[j]),
            acc == dec_value(d@.take(k as int)),
            acc <= 65535,
        decreases d@.len() - k,
    {
        let b = d[k];
        if b < 48 || b > 57 {
            assert(!is_digit(d@[k as int]));
            return None;
        }
        proof {
            assert(d@.take(k + 1).drop_last() =~= d@.take(k as int));
            assert(d@.take(k + 1).last() == d@[k as int]);
        }
        let next: u32 = acc * 10 + (b - 48) as u32;
        if next > 65535 {
            proof {
                lemma_dec_value_prefix_le(d@, k + 1);
            }
            return None;
        }
        acc = next;
        k = k + 1;
    }
    proof {
        assert(d@.take(d@.len() as int) =~= d@);
    }
    Some(acc as u16)
}

} // verus!
