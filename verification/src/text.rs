//! Byte-level helpers on UTF-8 text: comparing and copying the text of a span.

use vstd::prelude::*;
use vstd::string::*;
use vstd::utf8::*;

verus! {

/// The bytes of `s` in the half-open range `[start, end)`.
pub open spec fn span_text(s: Seq<u8>, start: int, end: int) -> Seq<u8> {
    s.subrange(start, end)
}

/// A position of `s` at which a character starts or the text ends.
pub open spec fn boundary(s: Seq<u8>, i: int) -> bool {
    0 <= i <= s.len() && (i < s.len() ==> !is_continuation_byte(s[i]))
}

/// In valid UTF-8 the positions that `boundary` accepts are exactly the
/// character boundaries.
pub proof fn lemma_boundary_is_char_boundary(s: Seq<u8>, i: int)
    requires
        valid_utf8(s),
    ensures
        boundary(s, i) <==> is_char_boundary(s, i),
{
    if 0 <= i < s.len() {
        is_char_boundary_iff_not_is_continuation_byte(s, i);
    } else if i == s.len() {
        is_char_boundary_start_end_of_seq(s);
    } else if is_char_boundary(s, i) {
        lemma_char_boundary_in_range(s, i);
    }
}

proof fn lemma_char_boundary_in_range(s: Seq<u8>, i: int)
    requires
        valid_utf8(s),
        is_char_boundary(s, i),
    ensures
        0 <= i <= s.len(),
    decreases s.len(),
{
    if i != 0 && 0 <= i <= s.len() {
        lemma_char_boundary_in_range(pop_first_scalar(s), i - length_of_first_scalar(s));
    }
}

/// In valid UTF-8 the byte behind an ASCII byte starts a character or ends
/// the text.
pub proof fn lemma_boundary_after_ascii(s: Seq<u8>, i: int)
    requires
        valid_utf8(s),
        0 <= i < s.len(),
        s[i] < 0x80,
    ensures
        boundary(s, i + 1),
    decreases s.len(),
{
    lemma_boundary_is_char_boundary(s, i);
    lemma_char_boundary_step(s, i);
    lemma_boundary_is_char_boundary(s, i + 1);
}

proof fn lemma_char_boundary_step(s: Seq<u8>, i: int)
    requires
        valid_utf8(s),
        0 <= i < s.len(),
        s[i] < 0x80,
        is_char_boundary(s, i),
    ensures
        is_char_boundary(s, i + 1),
    decreases s.len(),
{
    let rest = pop_first_scalar(s);
    let k = length_of_first_scalar(s);
    if i == 0 {
        assert(is_char_boundary(rest, 0));
    } else {
        lemma_char_boundary_in_range(rest, i - k);
        assert(rest[i - k] == s[i]);
        lemma_char_boundary_step(rest, i - k);
    }
}

/// Whether the bytes of `s` in `[start, end)` are the bytes of `lit`.
pub(crate) fn span_is(s: &[u8], start: usize, end: usize, lit: &str) -> (r: bool)
    requires
        start <= end <= s@.len(),
    ensures
        r == (span_text(s@, start as int, end as int) == lit.spec_bytes()),
{
    let want = lit.as_bytes();
    let n: usize = end - start;
    if want.len() != n {
        return false;
    }
    let mut i: usize = 0;
    while i < n
        invariant
            i <= n,
            n == end - start,
            end <= s@.len(),
            want@.len() == n,
            want@ == lit.spec_bytes(),
            forall|j: int| 0 <= j < i ==> s@[start + j] == want@[j],
        decreases n - i,
    {
        if s[start + i] != want[i] {
            assert(span_text(s@, start as int, end as int)[i as int] != want@[i as int]);
            return false;
        }
        i = i + 1;
    }
    assert(span_text(s@, start as int, end as int) =~= want@);
    true
}

/// Whether two texts are the same.
pub(crate) fn same_text(a: &str, b: &str) -> (r: bool)
    ensures
        r == (a@ == b@),
{
    proof {
        encode_utf8_decode_utf8(a@);
        encode_utf8_decode_utf8(b@);
    }
    let x = a.as_bytes();
    assert(span_text(x@, 0, x@.len() as int) =~= x@);
    span_is(x, 0, x.len(), b)
}

/// A copy of the text of `s` in `[start, end)`.
pub(crate) fn span_string(s: &str, start: usize, end: usize) -> (r: String)
    requires
        start <= end,
        boundary(s.spec_bytes(), start as int),
        boundary(s.spec_bytes(), end as int),
    ensures
        encode_utf8(r@) == span_text(s.spec_bytes(), start as int, end as int),
{
    let ghost whole = s.spec_bytes();
    proof {
        encode_utf8_valid_utf8(s@);
        lemma_boundary_is_char_boundary(whole, end as int);
    }
    let (head, _) = s.split_at(end);
    proof {
        valid_utf8_split(whole, end as int);
        lemma_boundary_is_char_boundary(head.spec_bytes(), start as int);
    }
    let (_, mid) = head.split_at(start);
    assert(mid.spec_bytes() =~= whole.subrange(start as int, end as int));
    mid.to_owned()
}

} // verus!
