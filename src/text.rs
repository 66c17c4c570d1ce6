//! Byte offsets into UTF-8 text, and the text they delimit.

use vstd::prelude::*;
use vstd::string::*;
use vstd::utf8::*;

verus! {

broadcast use encode_utf8_decode_utf8, decode_utf8_encode_utf8, encode_utf8_valid_utf8;

/// The characters encoded by the bytes `start..end` of `bytes`.
pub open spec fn text_of(bytes: Seq<u8>, start: int, end: int) -> Seq<char> {
    decode_utf8(bytes.subrange(start, end))
}

/// `start..end` delimits whole characters of `bytes`.
pub open spec fn is_text_range(bytes: Seq<u8>, start: int, end: int) -> bool {
    &&& 0 <= start <= end <= bytes.len()
    &&& is_char_boundary(bytes, start)
    &&& is_char_boundary(bytes, end)
}

/// Encoding distributes over concatenation.
pub proof fn lemma_encode_concat(a: Seq<char>, b: Seq<char>)
    ensures
        encode_utf8(a + b) == encode_utf8(a) + encode_utf8(b),
    decreases a.len(),
{
    if a.len() == 0 {
        assert(a + b =~= b);
    } else {
        assert((a + b).drop_first() =~= a.drop_first() + b);
        lemma_encode_concat(a.drop_first(), b);
        assert(encode_utf8(a + b) =~= encode_utf8(a) + encode_utf8(b));
    }
}

/// A character boundary of the whole sequence is one of a prefix that
/// reaches past it.
pub proof fn lemma_boundary_in_prefix(bytes: Seq<u8>, i: int, n: int)
    requires
        valid_utf8(bytes),
        is_char_boundary(bytes, n),
        is_char_boundary(bytes, i),
        0 <= i <= n <= bytes.len(),
    ensures
        valid_utf8(bytes.subrange(0, n)),
        is_char_boundary(bytes.subrange(0, n), i),
{
    let p = bytes.subrange(0, n);
    valid_utf8_split(bytes, n);
    if i == n {
        is_char_boundary_start_end_of_seq(p);
    } else {
        is_char_boundary_iff_not_is_continuation_byte(bytes, i);
        is_char_boundary_iff_not_is_continuation_byte(p, i);
    }
}

/// A character that is one ASCII byte ends where the next one starts.
pub proof fn lemma_boundary_after_ascii(bytes: Seq<u8>, i: int)
    requires
        valid_utf8(bytes),
        0 <= i < bytes.len(),
        is_char_boundary(bytes, i),
        bytes[i] < 0x80,
    ensures
        is_char_boundary(bytes, i + 1),
    decreases bytes.len(),
{
    reveal_with_fuel(is_char_boundary, 2);
    reveal_with_fuel(valid_utf8, 2);
    let len = length_of_first_scalar(bytes);
    let rest = pop_first_scalar(bytes);
    if i == 0 {
        assert(len == 1);
        is_char_boundary_start_end_of_seq(rest);
    } else {
        assert(valid_utf8(rest));
        assert(rest.len() < bytes.len());
        assert(rest[i - len] == bytes[i]);
        lemma_boundary_after_ascii(rest, i - len);
    }
}

/// The bytes between two character boundaries are valid UTF-8.
pub proof fn lemma_range_valid(bytes: Seq<u8>, start: int, end: int)
    requires
        valid_utf8(bytes),
        is_text_range(bytes, start, end),
    ensures
        valid_utf8(bytes.subrange(start, end)),
{
    lemma_boundary_in_prefix(bytes, start, end);
    let p = bytes.subrange(0, end);
    valid_utf8_split(p, start);
    assert(p.subrange(start, p.len() as int) =~= bytes.subrange(start, end));
}

/// The text of a range is the text of its two parts, split at a
/// character boundary.
pub proof fn lemma_text_split(bytes: Seq<u8>, start: int, mid: int, end: int)
    requires
        valid_utf8(bytes),
        is_text_range(bytes, start, mid),
        is_text_range(bytes, mid, end),
    ensures
        text_of(bytes, start, end) == text_of(bytes, start, mid) + text_of(bytes, mid, end),
{
    lemma_range_valid(bytes, start, mid);
    lemma_range_valid(bytes, mid, end);
    let x = text_of(bytes, start, mid);
    let y = text_of(bytes, mid, end);
    lemma_encode_concat(x, y);
    assert(bytes.subrange(start, end) =~= bytes.subrange(start, mid) + bytes.subrange(mid, end));
    assert(encode_utf8(x + y) == bytes.subrange(start, end));
}

/// Two texts are equal exactly when their encodings are.
pub fn same_text(a: &str, b: &str) -> (r: bool)
    ensures
        r == (a@ == b@),
{
    let x = a.as_bytes();
    let y = b.as_bytes();
    if x.len() != y.len() {
        return false;
    }
    let mut i: usize = 0;
    while i < x.len()
        invariant
            x@ == a.spec_bytes(),
            y@ == b.spec_bytes(),
            x@.len() == y@.len(),
            0 <= i <= x@.len(),
            forall|k: int| 0 <= k < i ==> x@[k] == y@[k],
        decreases x@.len() - i,
    {
        if x[i] != y[i] {
            return false;
        }
        i = i + 1;
    }
    assert(x@ =~= y@);
    assert(decode_utf8(encode_utf8(a@)) == a@);
    true
}

/// The part `start..end` of `s`, counted in bytes.
pub fn slice_str<'a>(s: &'a str, start: usize, end: usize) -> (r: &'a str)
    requires
        is_text_range(s.spec_bytes(), start as int, end as int),
    ensures
        r.spec_bytes() == s.spec_bytes().subrange(start as int, end as int),
        r@ == text_of(s.spec_bytes(), start as int, end as int),
{
    proof {
        lemma_boundary_in_prefix(s.spec_bytes(), start as int, end as int);
    }
    let (head, _) = s.split_at(end);
    let (_, mid) = head.split_at(start);
    assert(mid.spec_bytes() =~= s.spec_bytes().subrange(start as int, end as int));
    assert(decode_utf8(encode_utf8(mid@)) == mid@);
    mid
}

} // verus!
