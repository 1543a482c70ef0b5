//! Reading one packet: the header line, then one part from every line that is
//! not empty.

use vstd::prelude::*;
use vstd::string::StringSliceAdditionalSpecFns;
use vstd::utf8::valid_utf8;
use crate::packet::{cut_line, lemma_line_end, lemma_split_first, split_lines};
use crate::part::MessagePart;
use crate::{Sequence, MAX_PACKET_SIZE};

verus! {

/// The error of `core::str::from_utf8`; nothing is read from it.
#[verifier::external_type_specification]
#[verifier::external_body]
pub struct ExUtf8Error(core::str::Utf8Error);

/// `core::str::from_utf8` accepts exactly the byte strings that are UTF-8, and
/// the text it hands out has the bytes it was given.
pub assume_specification[ core::str::from_utf8 ](v: &[u8]) -> (r: Result<
    &str,
    core::str::Utf8Error,
>)
    ensures
        r is Ok <==> valid_utf8(v@),
        r is Ok ==> r->Ok_0.spec_bytes() == v@,
;

/// Why a packet was not read.
#[derive(Clone, PartialEq, Eq, Debug)]
pub enum DecodeError {
    /// The packet is larger than `MAX_PACKET_SIZE`.
    TooLarge,
    /// The packet is not UTF-8 text.
    NotUtf8,
    /// The first line is no header; with the reason the header's reader gave.
    Header(String),
    /// A line is no part; with the number of the line in the packet, the header
    /// being line 0, and the reason the part's reader gave.
    Part { line: usize, reason: String },
}

impl DecodeError {
    /// The error in words: for a header or a part, the reason its reader
    /// gave.
    pub fn describe(&self) -> (text: String)
        ensures
            self is TooLarge ==> text@ == "Message is larger than a packet\n"@,
            self is NotUtf8 ==> text@ == "Error converting message to string\n"@,
            self matches DecodeError::Header(reason) ==> text@ == reason@,
            self matches DecodeError::Part { reason, .. } ==> text@ == reason@,
    {
        match self {
            DecodeError::TooLarge => "Message is larger than a packet\n".to_owned(),
            DecodeError::NotUtf8 => "Error converting message to string\n".to_owned(),
            DecodeError::Header(reason) => reason.clone(),
            DecodeError::Part { line: _, reason } => reason.clone(),
        }
    }
}

/// `line` is not empty and does not stand for a part.
pub open spec fn unreadable<P: MessagePart>(line: Seq<u8>) -> bool {
    line.len() > 0 && P::parse(line) is None
}

/// The position of the first unreadable line among `lines`, if there is one.
pub open spec fn first_unreadable<P: MessagePart>(lines: Seq<Seq<u8>>) -> Option<int>
    decreases lines.len(),
{
    if lines.len() == 0 {
        None
    } else {
        match first_unreadable::<P>(lines.drop_last()) {
            Some(i) => Some(i),
            None => if unreadable::<P>(lines.last()) {
                Some(lines.len() - 1)
            } else {
                None
            },
        }
    }
}

/// The values of the lines that stand for a part, in order; empty lines are
/// passed over.
pub open spec fn parts_of<P: MessagePart>(lines: Seq<Seq<u8>>) -> Seq<P::V>
    decreases lines.len(),
{
    if lines.len() == 0 {
        Seq::<P::V>::empty()
    } else {
        let before = parts_of::<P>(lines.drop_last());
        let line = lines.last();
        if line.len() > 0 && P::parse(line) is Some {
            before.push(P::parse(line)->0)
        } else {
            before
        }
    }
}

/// The views of `parts`, in order.
pub open spec fn part_views<P: MessagePart>(parts: Seq<P>) -> Seq<P::V> {
    parts.map_values(|part: P| part@)
}

/// The header line of a packet.
pub open spec fn header_line(message: Seq<u8>) -> Seq<u8> {
    split_lines(message)[0]
}

/// The lines of a packet after its header line.
pub open spec fn part_lines(message: Seq<u8>) -> Seq<Seq<u8>> {
    split_lines(message).drop_first()
}

/// The packets that are read without an error: of a permitted size, UTF-8, with
/// a header line that is one and part lines that are empty or parts.
pub open spec fn well_formed_packet<H: MessagePart, P: MessagePart>(message: Seq<u8>) -> bool {
    &&& message.len() <= MAX_PACKET_SIZE
    &&& valid_utf8(message)
    &&& H::parse(header_line(message)) is Some
    &&& first_unreadable::<P>(part_lines(message)) is None
}

/// An unreadable line stays the first one when lines are added behind it.
pub proof fn lemma_first_unreadable_prefix<P: MessagePart>(lines: Seq<Seq<u8>>, n: int)
    requires
        0 <= n <= lines.len(),
        first_unreadable::<P>(lines.take(n)) is Some,
    ensures
        first_unreadable::<P>(lines) == first_unreadable::<P>(lines.take(n)),
    decreases lines.len(),
{
    if n == lines.len() {
        assert(lines.take(n) =~= lines);
    } else {
        assert(lines.drop_last().take(n) =~= lines.take(n));
        lemma_first_unreadable_prefix::<P>(lines.drop_last(), n);
    }
}

/// Reads a packet whose header is of type `H` and whose parts are of type `P`.
///
/// A packet that is well formed gives its header, and its parts are appended
/// to `parts` in the order of their lines. Any other packet gives the first
/// error that applies, in the order of `DecodeError`, and `parts` stays as it
/// was.
pub fn decode_packet<H: MessagePart, P: MessagePart>(message: &[u8], parts: &mut Vec<P>) -> (r:
    Result<H, DecodeError>)
    ensures
        r is Ok <==> well_formed_packet::<H, P>(message@),
        r is Ok ==> r->Ok_0@ == H::parse(header_line(message@))->0,
        r is Ok ==> final(parts)@.len() >= old(parts)@.len() && final(parts)@.take(
            old(parts)@.len() as int,
        ) == old(parts)@ && part_views(final(parts)@.skip(old(parts)@.len() as int))
            == parts_of::<P>(part_lines(message@)),
        r is Err ==> final(parts)@ == old(parts)@,
        r is Err ==> (r->Err_0 is TooLarge <==> message@.len() > MAX_PACKET_SIZE),
        r is Err ==> (r->Err_0 is NotUtf8 <==> message@.len() <= MAX_PACKET_SIZE && !valid_utf8(
            message@,
        )),
        r is Err ==> (r->Err_0 is Header <==> message@.len() <= MAX_PACKET_SIZE && valid_utf8(
            message@,
        ) && H::parse(header_line(message@)) is None),
        r is Err ==> (r->Err_0 matches DecodeError::Part { line, .. } ==> first_unreadable::<P>(
            part_lines(message@),
        ) == Some(line as int - 1)),
{
    if message.len() > MAX_PACKET_SIZE {
        return Err(DecodeError::TooLarge);
    }
    let text = match core::str::from_utf8(message) {
        Ok(text) => text,
        Err(_) => {
            return Err(DecodeError::NotUtf8);
        },
    };
    let ghost lines = split_lines(message@);
    let (first, tail) = cut_line(text);
    proof {
        lemma_line_end(message@);
        lemma_split_first(message@);
    }
    let header = match H::read(first) {
        Ok(header) => header,
        Err(reason) => {
            return Err(DecodeError::Header(reason));
        },
    };
    let mut found: Vec<P> = Vec::new();
    let mut rest: Option<&str> = tail;
    let mut index: usize = 1;
    let ghost mut seen: Seq<Seq<u8>> = Seq::empty();
    assert(part_views(found@) =~= parts_of::<P>(seen));
    while rest.is_some()
        invariant
            lines == split_lines(message@),
            message@.len() <= MAX_PACKET_SIZE,
            valid_utf8(message@),
            H::parse(header_line(message@)) is Some,
            lines.drop_first() == seen + (match rest {
                Some(text) => split_lines(text.spec_bytes()),
                None => Seq::<Seq<u8>>::empty(),
            }),
            rest is Some ==> seen.len() + rest->0.spec_bytes().len() <= message@.len(),
            seen.len() <= message@.len() + 1,
            index == seen.len() + 1,
            first_unreadable::<P>(seen) is None,
            part_views(found@) == parts_of::<P>(seen),
        decreases
                (match rest {
                    Some(text) => text.spec_bytes().len() + 1,
                    None => 0,
                }),
    {
        let current: &str = rest.unwrap();
        let (line, next) = cut_line(current);
        proof {
            lemma_line_end(current.spec_bytes());
            lemma_split_first(current.spec_bytes());
        }
        let ghost longer = seen.push(line.spec_bytes());
        proof {
            let here = split_lines(current.spec_bytes());
            assert(here =~= seq![here[0]] + here.drop_first());
            assert(longer.drop_last() =~= seen);
            if next is Some {
                assert(lines.drop_first() =~= longer + split_lines(next->0.spec_bytes()));
            } else {
                assert(lines.drop_first() =~= longer);
            }
            assert(lines.drop_first().take(longer.len() as int) =~= longer);
        }
        if line.len() > 0 {
            match P::read(line) {
                Ok(part) => {
                    found.push(part);
                    assert(part_views(found@) =~= parts_of::<P>(longer));
                },
                Err(reason) => {
                    proof {
                        assert(first_unreadable::<P>(longer) == Some(seen.len() as int));
                        lemma_first_unreadable_prefix::<P>(
                            lines.drop_first(),
                            longer.len() as int,
                        );
                    }
                    return Err(DecodeError::Part { line: index, reason });
                },
            }
        }
        proof {
            seen = longer;
        }
        index = index + 1;
        rest = next;
    }
    proof {
        assert(lines.drop_first() =~= seen);
    }
    let ghost before = parts@;
    let ghost added = found@;
    parts.append(&mut found);
    proof {
        assert(parts@.take(before.len() as int) =~= before);
        assert(parts@.skip(before.len() as int) =~= added);
    }
    Ok(header)
}

/// Reads a packet whose header is the confirmed sequence number, as
/// `decode_packet` does with a header of that type.
pub fn decode<P: MessagePart>(message: &[u8], parts: &mut Vec<P>) -> (r: Result<
    Sequence,
    DecodeError,
>)
    ensures
        r is Ok <==> well_formed_packet::<Sequence, P>(message@),
        r is Ok ==> Some(r->Ok_0) == crate::decimal::parse_decimal(header_line(message@)),
        r is Ok ==> final(parts)@.len() >= old(parts)@.len() && final(parts)@.take(
            old(parts)@.len() as int,
        ) == old(parts)@ && part_views(final(parts)@.skip(old(parts)@.len() as int))
            == parts_of::<P>(part_lines(message@)),
        r is Err ==> final(parts)@ == old(parts)@,
        r is Err ==> (r->Err_0 is TooLarge <==> message@.len() > MAX_PACKET_SIZE),
        r is Err ==> (r->Err_0 is NotUtf8 <==> message@.len() <= MAX_PACKET_SIZE && !valid_utf8(
            message@,
        )),
        r is Err ==> (r->Err_0 is Header <==> message@.len() <= MAX_PACKET_SIZE && valid_utf8(
            message@,
        ) && crate::decimal::parse_decimal(header_line(message@)) is None),
        r is Err ==> (r->Err_0 matches DecodeError::Part { line, .. } ==> first_unreadable::<P>(
            part_lines(message@),
        ) == Some(line as int - 1)),
{
    decode_packet::<Sequence, P>(message, parts)
}

} // verus!
