//! Byte-level helpers shared by the parser and the serializer: searching,
//! comparing, decimal digits, and the conversions between bytes and text.

use vstd::prelude::*;
use vstd::slice::*;
use vstd::utf8::*;

verus! {

/// Line feed, the line terminator.
pub const LF: u8 = 10;

/// Carriage return, tolerated in front of a line feed.
pub const CR: u8 = 13;

/// The separator of the tokens of a request line.
pub const SPACE: u8 = 32;

/// The path separator that a request target may start with.
pub const SLASH: u8 = 47;

/// The separator between path and query in a request target.
pub const QUESTION: u8 = 63;

/// The separator in front of a file extension.
pub const DOT: u8 = 46;

/// The position of the first `b` in `s` at or after `from`, or the length
/// of `s` when there is none.
pub open spec fn find_from(s: Seq<u8>, b: u8, from: int) -> int
    decreases s.len() - from,
{
    if from < 0 || from >= s.len() {
        s.len() as int
    } else if s[from] == b {
        from
    } else {
        find_from(s, b, from + 1)
    }
}

/// `find_from` returns a position in range, with no `b` in front of it
/// and a `b` at it unless it is the end.
pub proof fn lemma_find_from(s: Seq<u8>, b: u8, from: int)
    requires
        0 <= from <= s.len(),
    ensures
        from <= find_from(s, b, from) <= s.len(),
        forall|j: int| from <= j < find_from(s, b, from) ==> s[j] != b,
        find_from(s, b, from) < s.len() ==> s[find_from(s, b, from)] == b,
    decreases s.len() - from,
{
    if from < s.len() && s[from] != b {
        lemma_find_from(s, b, from + 1);
    }
}

/// A position with no `b` in front of it and a `b` at it, or the end, is
/// the one that `find_from` returns.
pub proof fn lemma_find_from_unique(s: Seq<u8>, b: u8, from: int, at: int)
    requires
        0 <= from <= at <= s.len(),
        forall|j: int| from <= j < at ==> s[j] != b,
        at < s.len() ==> s[at] == b,
    ensures
        find_from(s, b, from) == at,
    decreases at - from,
{
    if from < at {
        lemma_find_from_unique(s, b, from + 1, at);
    }
}

/// The position of the first `b` in `s` at or after `from`, or the
/// length of `s` when there is none.
pub fn find_byte(s: &[u8], b: u8, from: usize) -> (at: usize)
    ensures
        at == find_from(s@, b, from as int),
        at <= s.len(),
        from <= s.len() ==> from <= at,
{
    if from >= s.len() {
        return s.len();
    }
    let mut i: usize = from;
    while i < s.len() && s[i] != b
        invariant
            from <= i <= s.len(),
            find_from(s@, b, from as int) == find_from(s@, b, i as int),
        decreases s.len() - i,
    {
        i += 1;
    }
    i
}

/// The position just behind the last `b` in `s`, or 0 when there is none.
pub open spec fn after_last(s: Seq<u8>, b: u8) -> int
    decreases s.len(),
{
    if s.len() == 0 {
        0
    } else if s.last() == b {
        s.len() as int
    } else {
        after_last(s.drop_last(), b)
    }
}

/// Where `tail` holds no `b`, the position behind the last `b` of a
/// string that ends in `b` and `tail` is the one where `tail` starts.
pub proof fn lemma_after_last_found(s: Seq<u8>, b: u8, tail: Seq<u8>)
    requires
        forall|i: int| 0 <= i < tail.len() ==> tail[i] != b,
    ensures
        after_last(s.push(b) + tail, b) == s.len() + 1,
    decreases tail.len(),
{
    let whole = s.push(b) + tail;
    if tail.len() == 0 {
        assert(whole =~= s.push(b));
    } else {
        assert(whole.last() == tail.last());
        assert(whole.drop_last() =~= s.push(b) + tail.drop_last());
        lemma_after_last_found(s, b, tail.drop_last());
    }
}

/// A string that holds no `b` has position 0 behind its last `b`.
pub proof fn lemma_after_last_none(s: Seq<u8>, b: u8)
    requires
        forall|i: int| 0 <= i < s.len() ==> s[i] != b,
    ensures
        after_last(s, b) == 0,
    decreases s.len(),
{
    if s.len() > 0 {
        lemma_after_last_none(s.drop_last(), b);
    }
}

/// The position just behind the last `b` in `s`, or 0 when there is none.
pub fn find_after_last(s: &[u8], b: u8) -> (at: usize)
    ensures
        at == after_last(s@, b),
        at <= s.len(),
{
    let mut i: usize = s.len();
    assert(s@.take(s.len() as int) =~= s@);
    while i > 0 && s[i - 1] != b
        invariant
            i <= s.len(),
            after_last(s@, b) == after_last(s@.take(i as int), b),
        decreases i,
    {
        assert(s@.take(i as int).drop_last() =~= s@.take(i - 1));
        i -= 1;
    }
    i
}

/// Whether two byte strings are the same.
pub fn bytes_eq(a: &[u8], b: &[u8]) -> (same: bool)
    ensures
        same == (a@ == b@),
{
    if a.len() != b.len() {
        return false;
    }
    let mut i: usize = 0;
    while i < a.len()
        invariant
            i <= a.len(),
            a.len() == b.len(),
            forall|j: int| 0 <= j < i ==> a[j] == b[j],
        decreases a.len() - i,
    {
        if a[i] != b[i] {
            return false;
        }
        i += 1;
    }
    assert(a@ =~= b@);
    true
}

/// Whether `s` begins with `prefix`.
pub fn starts_with(s: &[u8], prefix: &[u8]) -> (yes: bool)
    ensures
        yes == prefix@.is_prefix_of(s@),
{
    if prefix.len() > s.len() {
        return false;
    }
    let head = slice_subrange(s, 0, prefix.len());
    let yes = bytes_eq(head, prefix);
    proof {
        if prefix@.is_prefix_of(s@) {
            assert(s@.subrange(0, prefix@.len() as int) =~= prefix@);
        }
    }
    yes
}

/// The decimal digits of `n` in ASCII, without leading zeros.
pub open spec fn decimal(n: nat) -> Seq<u8>
    decreases n,
{
    if n < 10 {
        seq![(48 + n) as u8]
    } else {
        decimal(n / 10).push((48 + n % 10) as u8)
    }
}

/// The number that a string of ASCII decimal digits denotes.
pub open spec fn decimal_value(digits: Seq<u8>) -> nat
    decreases digits.len(),
{
    if digits.len() == 0 {
        0
    } else {
        (decimal_value(digits.drop_last()) * 10 + (digits.last() - 48)) as nat
    }
}

/// Whether every byte of `s` is an ASCII decimal digit.
pub open spec fn all_digits(s: Seq<u8>) -> bool {
    forall|i: int| 0 <= i < s.len() ==> 48 <= #[trigger] s[i] <= 57
}

/// The digits of a number are digits, at least one of them, and denote
/// that number.
pub proof fn lemma_decimal_round_trip(n: nat)
    ensures
        decimal(n).len() >= 1,
        all_digits(decimal(n)),
        decimal_value(decimal(n)) == n,
    decreases n,
{
    if n < 10 {
        assert(decimal(n).drop_last() =~= Seq::<u8>::empty());
        assert(decimal_value(decimal(n).drop_last()) == 0);
    } else {
        lemma_decimal_round_trip(n / 10);
        let d = decimal(n / 10);
        assert(decimal(n).drop_last() =~= d);
    }
}

/// Appends the decimal digits of `n` to `buf`.
pub fn push_decimal(buf: &mut Vec<u8>, n: usize)
    ensures
        final(buf)@ == old(buf)@ + decimal(n as nat),
    decreases n,
{
    if n < 10 {
        buf.push(48 + n as u8);
        assert(buf@ =~= old(buf)@ + decimal(n as nat));
    } else {
        push_decimal(buf, n / 10);
        buf.push(48 + (n % 10) as u8);
        assert(buf@ =~= old(buf)@ + decimal(n as nat));
    }
}

/// Appends the bytes of `src` to `buf`.
pub fn push_bytes(buf: &mut Vec<u8>, src: &[u8])
    ensures
        final(buf)@ == old(buf)@ + src@,
{
    buf.extend_from_slice(src);
    assert(buf@ =~= old(buf)@ + src@);
}

/// The text that [`String::from_utf8_lossy`] makes of `bytes`: the text
/// they encode, with a replacement character for each malformed part.
pub uninterp spec fn lossy_text(bytes: Seq<u8>) -> Seq<char>;

/// Calls [`std::str::from_utf8`]. Believed of it: it accepts exactly the
/// well-formed UTF-8 strings, and the text it returns is the one that
/// the bytes encode.
#[verifier::external_body]
pub(crate) fn utf8_text<'a>(bytes: &'a [u8]) -> (text: Option<&'a str>)
    ensures
        text is Some <==> valid_utf8(bytes@),
        text matches Some(s) ==> s@ == decode_utf8(bytes@),
{
    std::str::from_utf8(bytes).ok()
}

/// Calls [`String::from_utf8_lossy`]. Believed of it: the text depends on
/// the bytes alone, and well-formed UTF-8 comes back as the text that it
/// encodes.
#[verifier::external_body]
pub(crate) fn utf8_lossy(bytes: &[u8]) -> (text: String)
    ensures
        text@ == lossy_text(bytes@),
        valid_utf8(bytes@) ==> text@ == decode_utf8(bytes@),
{
    String::from_utf8_lossy(bytes).into_owned()
}

} // verus!
