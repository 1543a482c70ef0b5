//! The shape of a packet as text: lines, each ended by a line end, the first
//! one the header.

use vstd::prelude::*;
use vstd::string::StringSliceAdditionalSpecFns;
use crate::text::{cut_at, find_byte, lemma_find_byte, lemma_find_byte_at, NEWLINE};

verus! {

/// The number of bytes before the first line end in `bytes`, or its length
/// where it holds none.
pub open spec fn line_end(bytes: Seq<u8>) -> nat {
    find_byte(bytes, NEWLINE)
}

/// `bytes` cut at every line end. There is always a first line; text that ends
/// in a line end has an empty last line.
pub open spec fn split_lines(bytes: Seq<u8>) -> Seq<Seq<u8>>
    decreases bytes.len(),
{
    let end = line_end(bytes) as int;
    if end >= bytes.len() {
        seq![bytes]
    } else {
        seq![bytes.take(end)] + split_lines(bytes.skip(end + 1))
    }
}

/// The lines, each followed by a line end.
pub open spec fn packet_text(lines: Seq<Seq<u8>>) -> Seq<u8>
    decreases lines.len(),
{
    if lines.len() == 0 {
        Seq::<u8>::empty()
    } else {
        packet_text(lines.drop_last()) + lines.last().push(NEWLINE)
    }
}

/// Cuts the first line off `text`: the line without its line end, and what
/// follows the line end if there is one.
pub fn cut_line<'a>(text: &'a str) -> (r: (&'a str, Option<&'a str>))
    ensures
        r.0.spec_bytes() == text.spec_bytes().take(line_end(text.spec_bytes()) as int),
        r.1 is Some <==> line_end(text.spec_bytes()) < text.spec_bytes().len(),
        r.1 is Some ==> r.1->0.spec_bytes() == text.spec_bytes().skip(
            line_end(text.spec_bytes()) as int + 1,
        ),
{
    cut_at(text, NEWLINE)
}

/// No line holds a line end.
pub open spec fn single_lines(lines: Seq<Seq<u8>>) -> bool {
    forall|i: int| 0 <= i < lines.len() ==> !(#[trigger] lines[i]).contains(NEWLINE)
}

/// `line_end` stops at the first line end and at nothing before it.
pub proof fn lemma_line_end(bytes: Seq<u8>)
    ensures
        line_end(bytes) <= bytes.len(),
        forall|i: int| 0 <= i < line_end(bytes) ==> bytes[i] != NEWLINE,
        line_end(bytes) < bytes.len() ==> bytes[line_end(bytes) as int] == NEWLINE,
{
    lemma_find_byte(bytes, NEWLINE);
}

/// A position with no line end before it, that is the end or holds one, is
/// where the first line ends.
pub proof fn lemma_line_end_at(bytes: Seq<u8>, k: int)
    requires
        0 <= k <= bytes.len(),
        forall|i: int| 0 <= i < k ==> bytes[i] != NEWLINE,
        k < bytes.len() ==> bytes[k] == NEWLINE,
    ensures
        line_end(bytes) == k,
{
    lemma_find_byte_at(bytes, NEWLINE, k);
}

/// The first line of a text, and the lines after it.
pub proof fn lemma_split_first(bytes: Seq<u8>)
    ensures
        split_lines(bytes).len() >= 1,
        split_lines(bytes)[0] == bytes.take(line_end(bytes) as int),
        line_end(bytes) < bytes.len() ==> split_lines(bytes).drop_first() == split_lines(
            bytes.skip(line_end(bytes) as int + 1),
        ),
        line_end(bytes) >= bytes.len() ==> split_lines(bytes).drop_first() == Seq::<
            Seq<u8>,
        >::empty(),
{
    lemma_line_end(bytes);
    let end = line_end(bytes) as int;
    if end >= bytes.len() {
        assert(bytes.take(end) =~= bytes);
        assert(split_lines(bytes).drop_first() =~= Seq::<Seq<u8>>::empty());
    } else {
        assert(split_lines(bytes).drop_first() =~= split_lines(bytes.skip(end + 1)));
    }
}

/// Text without a line end is one line.
pub proof fn lemma_split_single(bytes: Seq<u8>)
    requires
        !bytes.contains(NEWLINE),
    ensures
        split_lines(bytes) == seq![bytes],
{
    lemma_line_end(bytes);
    if line_end(bytes) < bytes.len() {
        assert(bytes.contains(bytes[line_end(bytes) as int]));
    }
}

/// Cutting `a`, a line end and `b` gives the lines of `a`, then those of `b`.
pub proof fn lemma_split_concat(a: Seq<u8>, b: Seq<u8>)
    ensures
        split_lines(a.push(NEWLINE) + b) == split_lines(a) + split_lines(b),
    decreases a.len(),
{
    let whole = a.push(NEWLINE) + b;
    lemma_line_end(a);
    let e = line_end(a) as int;
    assert forall|i: int| 0 <= i < e implies whole[i] != NEWLINE by {
        assert(whole[i] == a[i]);
    }
    if e < a.len() {
        assert(whole[e] == a[e]);
    } else {
        assert(whole[e] == NEWLINE);
    }
    lemma_line_end_at(whole, e);
    assert(whole.take(e) =~= a.take(e));
    if e < a.len() {
        let rest = a.skip(e + 1);
        assert(whole.skip(e + 1) =~= rest.push(NEWLINE) + b);
        lemma_split_concat(rest, b);
        assert(split_lines(whole) =~= split_lines(a) + split_lines(b));
    } else {
        assert(whole.skip(e + 1) =~= b);
        assert(a.take(e) =~= a);
        assert(split_lines(whole) =~= split_lines(a) + split_lines(b));
    }
}

/// Joining two runs of lines gives the first text, then the second.
pub proof fn lemma_packet_text_concat(front: Seq<Seq<u8>>, back: Seq<Seq<u8>>)
    ensures
        packet_text(front + back) == packet_text(front) + packet_text(back),
    decreases back.len(),
{
    if back.len() == 0 {
        assert(front + back =~= front);
        assert(packet_text(front) + packet_text(back) =~= packet_text(front));
    } else {
        let shorter = back.drop_last();
        assert((front + back).drop_last() =~= front + shorter);
        assert((front + back).last() == back.last());
        lemma_packet_text_concat(front, shorter);
        assert(packet_text(front + back) =~= packet_text(front) + packet_text(back));
    }
}

/// Cutting the text of lines that hold no line end gives those lines back, and
/// an empty line after the last line end.
pub proof fn lemma_split_packet_text(lines: Seq<Seq<u8>>)
    requires
        single_lines(lines),
    ensures
        split_lines(packet_text(lines)) == lines.push(Seq::<u8>::empty()),
    decreases lines.len(),
{
    let empty = Seq::<u8>::empty();
    if lines.len() == 0 {
        assert(!empty.contains(NEWLINE));
        lemma_split_single(empty);
        assert(lines.push(empty) =~= seq![empty]);
    } else {
        let first = lines[0];
        let rest = lines.drop_first();
        assert(lines =~= seq![first] + rest);
        lemma_packet_text_concat(seq![first], rest);
        assert(seq![first].drop_last() =~= Seq::<Seq<u8>>::empty());
        assert(packet_text(seq![first]) =~= first.push(NEWLINE)) by {
            assert(packet_text(seq![first].drop_last()) =~= Seq::<u8>::empty());
        }
        assert forall|i: int| 0 <= i < rest.len() implies !(#[trigger] rest[i]).contains(
            NEWLINE,
        ) by {
            assert(rest[i] == lines[i + 1]);
        }
        lemma_split_packet_text(rest);
        lemma_split_concat(first, packet_text(rest));
        lemma_split_single(first);
        assert(lines.push(empty) =~= seq![first] + rest.push(empty));
    }
}

} // verus!
