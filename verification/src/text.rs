//! Byte strings as text: finding a byte, cutting at it, comparing.

use vstd::prelude::*;
use vstd::string::StringSliceAdditionalSpecFns;
use vstd::utf8::{
    encode_utf8_valid_utf8, is_char_boundary, is_char_boundary_iff_not_is_continuation_byte,
    is_leading_byte_width_1, partial_valid_utf8, partial_valid_utf8_extend_ascii_block,
    valid_utf8,
};

verus! {

/// The byte that ends a line.
pub const NEWLINE: u8 = 0x0a;

/// The byte of a space.
pub const SPACE: u8 = 0x20;

/// Every byte of `s` is below 128.
pub open spec fn is_ascii_bytes(s: Seq<u8>) -> bool {
    forall|i: int| 0 <= i < s.len() ==> #[trigger] s[i] < 0x80
}

/// Bytes below 128 are UTF-8 as they stand.
pub proof fn lemma_ascii_is_utf8(s: Seq<u8>)
    requires
        is_ascii_bytes(s),
    ensures
        valid_utf8(s),
{
    assert(s.subrange(0, 0) =~= Seq::<u8>::empty());
    assert(partial_valid_utf8(s, 0));
    assert forall|i: int| 0 <= i < s.len() implies #[trigger] is_leading_byte_width_1(s[i]) by {
        assert(s[i] < 0x80);
    }
    partial_valid_utf8_extend_ascii_block(s, 0, s.len() as int);
    assert(s.subrange(0, s.len() as int) =~= s);
}

/// The number of bytes before the first `mark` in `bytes`, or its length where
/// it holds none.
pub open spec fn find_byte(bytes: Seq<u8>, mark: u8) -> nat
    decreases bytes.len(),
{
    if bytes.len() == 0 || bytes[0] == mark {
        0
    } else {
        1 + find_byte(bytes.drop_first(), mark)
    }
}

/// `find_byte` stops at the first `mark` and at nothing before it.
pub proof fn lemma_find_byte(bytes: Seq<u8>, mark: u8)
    ensures
        find_byte(bytes, mark) <= bytes.len(),
        forall|i: int| 0 <= i < find_byte(bytes, mark) ==> bytes[i] != mark,
        find_byte(bytes, mark) < bytes.len() ==> bytes[find_byte(bytes, mark) as int] == mark,
    decreases bytes.len(),
{
    if bytes.len() == 0 || bytes[0] == mark {
    } else {
        let rest = bytes.drop_first();
        lemma_find_byte(rest, mark);
        assert forall|i: int| 0 <= i < find_byte(bytes, mark) implies bytes[i] != mark by {
            if i > 0 {
                assert(bytes[i] == rest[i - 1]);
            }
        }
        if find_byte(bytes, mark) < bytes.len() {
            assert(bytes[find_byte(bytes, mark) as int] == rest[find_byte(rest, mark) as int]);
        }
    }
}

/// A position with no `mark` before it, that is the end or holds one, is where
/// `find_byte` stops.
pub proof fn lemma_find_byte_at(bytes: Seq<u8>, mark: u8, k: int)
    requires
        0 <= k <= bytes.len(),
        forall|i: int| 0 <= i < k ==> bytes[i] != mark,
        k < bytes.len() ==> bytes[k] == mark,
    ensures
        find_byte(bytes, mark) == k,
{
    lemma_find_byte(bytes, mark);
    let e = find_byte(bytes, mark) as int;
    if e < k {
        assert(bytes[e] == mark);
    } else if e > k {
        assert(bytes[k] != mark);
    }
}

/// Cuts `text` at its first `mark`, a byte below 128: what stands before the
/// mark, and what follows it if there is a mark.
pub fn cut_at<'a>(text: &'a str, mark: u8) -> (r: (&'a str, Option<&'a str>))
    requires
        mark < 0x80,
    ensures
        r.0.spec_bytes() == text.spec_bytes().take(find_byte(text.spec_bytes(), mark) as int),
        r.1 is Some <==> find_byte(text.spec_bytes(), mark) < text.spec_bytes().len(),
        r.1 is Some ==> r.1->0.spec_bytes() == text.spec_bytes().skip(
            find_byte(text.spec_bytes(), mark) as int + 1,
        ),
{
    let bytes = text.as_bytes();
    let mut k: usize = 0;
    while k < bytes.len() && bytes[k] != mark
        invariant
            k <= bytes@.len(),
            forall|i: int| 0 <= i < k ==> bytes@[i] != mark,
        decreases bytes@.len() - k,
    {
        k = k + 1;
    }
    proof {
        lemma_find_byte_at(bytes@, mark, k as int);
        encode_utf8_valid_utf8(text@);
    }
    if k == bytes.len() {
        assert(bytes@.take(k as int) =~= bytes@);
        (text, None)
    } else {
        proof {
            is_char_boundary_iff_not_is_continuation_byte(bytes@, k as int);
        }
        let (line, tail) = text.split_at(k);
        proof {
            encode_utf8_valid_utf8(tail@);
            reveal_with_fuel(valid_utf8, 2);
            reveal_with_fuel(is_char_boundary, 2);
            assert(tail.spec_bytes()[0] == mark);
        }
        let (_, rest) = tail.split_at(1);
        assert(rest.spec_bytes() =~= bytes@.skip(k + 1));
        assert(line.spec_bytes() =~= bytes@.take(k as int));
        (line, Some(rest))
    }
}

/// Whether two byte strings are the same.
pub fn same_bytes(a: &[u8], b: &[u8]) -> (same: bool)
    ensures
        same == (a@ == b@),
{
    if a.len() != b.len() {
        return false;
    }
    let mut i: usize = 0;
    while i < a.len()
        invariant
            i <= a@.len(),
            a@.len() == b@.len(),
            a@.take(i as int) == b@.take(i as int),
        decreases a@.len() - i,
    {
        if a[i] != b[i] {
            return false;
        }
        i = i + 1;
        assert(a@.take(i as int) =~= a@.take(i - 1).push(a@[i - 1]));
        assert(b@.take(i as int) =~= b@.take(i - 1).push(b@[i - 1]));
    }
    assert(a@.take(i as int) =~= a@);
    assert(b@.take(i as int) =~= b@);
    true
}

/// Whether `bytes` holds `mark`.
pub fn holds_byte(bytes: &[u8], mark: u8) -> (found: bool)
    ensures
        found == bytes@.contains(mark),
{
    let mut i: usize = 0;
    while i < bytes.len()
        invariant
            i <= bytes@.len(),
            forall|j: int| 0 <= j < i ==> bytes@[j] != mark,
        decreases bytes@.len() - i,
    {
        if bytes[i] == mark {
            return true;
        }
        i = i + 1;
    }
    false
}

} // verus!
