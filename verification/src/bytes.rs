//! Small building blocks on byte strings: searching, appending, decimal
//! numbers and the byte-wise lexicographic order.

use vstd::prelude::*;

verus! {

/// The index of the first occurrence of `b` in `s`, or `s.len()` where `b`
/// does not occur.
pub open spec fn first_index(s: Seq<u8>, b: u8) -> int
    decreases s.len(),
{
    if s.len() == 0 {
        0
    } else if s[0] == b {
        0
    } else {
        1 + first_index(s.drop_first(), b)
    }
}

/// `first_index` stays within the sequence, skips only bytes other than `b`,
/// and stops on `b`.
pub proof fn lemma_first_index(s: Seq<u8>, b: u8)
    ensures
        0 <= first_index(s, b) <= s.len(),
        forall|j: int| 0 <= j < first_index(s, b) ==> s[j] != b,
        first_index(s, b) < s.len() ==> s[first_index(s, b)] == b,
    decreases s.len(),
{
    if s.len() != 0 && s[0] != b {
        let t = s.drop_first();
        lemma_first_index(t, b);
        assert forall|j: int| 0 <= j < first_index(s, b) implies s[j] != b by {
            if j > 0 {
                assert(s[j] == t[j - 1]);
            }
        }
    }
}

/// An index that is preceded only by bytes other than `b`, and that holds `b`
/// or is the end of the sequence, is the first index of `b`.
pub proof fn lemma_first_index_is(s: Seq<u8>, b: u8, k: int)
    requires
        0 <= k <= s.len(),
        forall|j: int| 0 <= j < k ==> s[j] != b,
        k < s.len() ==> s[k] == b,
    ensures
        first_index(s, b) == k,
    decreases s.len(),
{
    if s.len() != 0 && k > 0 {
        let t = s.drop_first();
        lemma_first_index_is(t, b, k - 1);
    }
}

/// Whether `b` occurs nowhere in `s`.
pub open spec fn lacks(s: Seq<u8>, b: u8) -> bool {
    forall|j: int| 0 <= j < s.len() ==> s[j] != b
}

/// In `head + [b] + tail`, where `head` lacks `b`, the first `b` is the one
/// in the middle.
pub proof fn lemma_first_index_concat(head: Seq<u8>, b: u8, tail: Seq<u8>)
    requires
        lacks(head, b),
    ensures
        first_index(head + seq![b] + tail, b) == head.len(),
{
    let s = head + seq![b] + tail;
    lemma_first_index_is(s, b, head.len() as int);
}

/// Finds the first `b` at or after `start`.
pub(crate) fn find_byte(s: &[u8], start: usize, b: u8) -> (k: usize)
    requires
        start <= s.len(),
    ensures
        k == start + first_index(s@.skip(start as int), b),
        start <= k <= s.len(),
{
    let mut k: usize = start;
    while k < s.len() && s[k] != b
        invariant
            start <= k <= s.len(),
            forall|j: int| start <= j < k ==> s@[j] != b,
        decreases s.len() - k,
    {
        k += 1;
    }
    proof {
        let t = s@.skip(start as int);
        lemma_first_index_is(t, b, k - start);
    }
    k
}

/// Whether `b` occurs in `s`.
pub(crate) fn has_byte(s: &[u8], b: u8) -> (r: bool)
    ensures
        r == !lacks(s@, b),
{
    assert(s@.skip(0) =~= s@);
    let k = find_byte(s, 0, b);
    proof {
        lemma_first_index(s@, b);
    }
    k < s.len()
}

/// Appends `src` to `dst`.
pub(crate) fn append_bytes(dst: &mut Vec<u8>, src: &[u8])
    ensures
        final(dst)@ == old(dst)@ + src@,
{
    let mut i: usize = 0;
    while i < src.len()
        invariant
            i <= src.len(),
            dst@ == old(dst)@ + src@.take(i as int),
        decreases src.len() - i,
    {
        dst.push(src[i]);
        i += 1;
    }
}

/// Whether two byte strings hold the same bytes.
pub(crate) fn bytes_eq(a: &[u8], b: &[u8]) -> (r: bool)
    ensures
        r == (a@ == b@),
{
    if a.len() != b.len() {
        return false;
    }
    let mut i: usize = 0;
    while i < a.len()
        invariant
            i <= a.len(),
            a.len() == b.len(),
            forall|j: int| 0 <= j < i ==> a@[j] == b@[j],
        decreases a.len() - i,
    {
        if a[i] != b[i] {
            return false;
        }
        i += 1;
    }
    assert(a@ =~= b@);
    true
}

/// The decimal digits of `n` in ASCII, most significant first, without
/// leading zeroes; zero is `"0"`.
pub open spec fn spec_decimal(n: nat) -> Seq<u8>
    decreases n,
{
    if n < 10 {
        seq![(48 + n) as u8]
    } else {
        spec_decimal(n / 10).push((48 + n % 10) as u8)
    }
}

/// Whether `b` is one of the ASCII digits `0` to `9`.
pub open spec fn is_digit(b: u8) -> bool {
    48 <= b <= 57
}

/// A decimal number is a non-empty string of digits.
pub proof fn lemma_decimal_digits(n: nat)
    ensures
        spec_decimal(n).len() >= 1,
        forall|j: int| 0 <= j < spec_decimal(n).len() ==> is_digit(#[trigger] spec_decimal(n)[j]),
    decreases n,
{
    if n >= 10 {
        lemma_decimal_digits(n / 10);
    }
}

/// Writes `n` in decimal.
pub fn decimal(n: u64) -> (out: Vec<u8>)
    ensures
        out@ == spec_decimal(n as nat),
    decreases n,
{
    if n < 10 {
        let mut out: Vec<u8> = Vec::new();
        out.push(48u8 + n as u8);
        out
    } else {
        let mut out = decimal(n / 10);
        out.push(48u8 + (n % 10) as u8);
        out
    }
}

/// The byte-wise lexicographic order: a string precedes those that it is a
/// prefix of, and otherwise the first differing byte decides.
pub open spec fn lex_le(a: Seq<u8>, b: Seq<u8>) -> bool
    decreases a.len(),
{
    if a.len() == 0 {
        true
    } else if b.len() == 0 {
        false
    } else if a[0] != b[0] {
        a[0] < b[0]
    } else {
        lex_le(a.drop_first(), b.drop_first())
    }
}

/// Every string precedes or equals itself.
pub proof fn lemma_lex_le_reflexive(a: Seq<u8>)
    ensures
        lex_le(a, a),
    decreases a.len(),
{
    if a.len() != 0 {
        lemma_lex_le_reflexive(a.drop_first());
    }
}

/// Of two strings, one precedes or equals the other.
pub proof fn lemma_lex_le_total(a: Seq<u8>, b: Seq<u8>)
    ensures
        lex_le(a, b) || lex_le(b, a),
    decreases a.len(),
{
    if a.len() != 0 && b.len() != 0 && a[0] == b[0] {
        lemma_lex_le_total(a.drop_first(), b.drop_first());
    }
}

/// Two strings that precede or equal each other are the same string.
pub proof fn lemma_lex_le_antisymmetric(a: Seq<u8>, b: Seq<u8>)
    requires
        lex_le(a, b),
        lex_le(b, a),
    ensures
        a == b,
    decreases a.len(),
{
    if a.len() != 0 {
        lemma_lex_le_antisymmetric(a.drop_first(), b.drop_first());
        assert(b =~= seq![b[0]] + b.drop_first());
    }
}

/// The order is transitive.
pub proof fn lemma_lex_le_transitive(a: Seq<u8>, b: Seq<u8>, c: Seq<u8>)
    requires
        lex_le(a, b),
        lex_le(b, c),
    ensures
        lex_le(a, c),
    decreases a.len(),
{
    if a.len() != 0 && a[0] == b[0] && b[0] == c[0] {
        lemma_lex_le_transitive(a.drop_first(), b.drop_first(), c.drop_first());
    }
}

/// Whether `a` precedes or equals `b` in the lexicographic order.
pub fn bytes_le(a: &[u8], b: &[u8]) -> (r: bool)
    ensures
        r == lex_le(a@, b@),
{
    let mut i: usize = 0;
    assert(a@.skip(0) =~= a@ && b@.skip(0) =~= b@);
    while i < a.len() && i < b.len() && a[i] == b[i]
        invariant
            i <= a.len(),
            i <= b.len(),
            lex_le(a@, b@) == lex_le(a@.skip(i as int), b@.skip(i as int)),
        decreases a.len() - i,
    {
        proof {
            let x = a@.skip(i as int);
            let y = b@.skip(i as int);
            assert(x.drop_first() =~= a@.skip(i + 1));
            assert(y.drop_first() =~= b@.skip(i + 1));
        }
        i += 1;
    }
    if i == a.len() {
        true
    } else if i == b.len() {
        false
    } else {
        a[i] < b[i]
    }
}

} // verus!
