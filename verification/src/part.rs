//! What a value must be able to do to travel as one line of a packet: write
//! itself as a fragment of text, and read itself back from such a fragment.

use vstd::prelude::*;
use vstd::string::StringSliceAdditionalSpecFns;
use vstd::utf8::valid_utf8;
use crate::buf_writer::{BufError, BufWriter};
use crate::decimal::{
    all_digits, decimal_text, format_i32, format_u64, is_digit, lemma_decimal_round_trip,
    lemma_decimal_text_digits, parse_decimal, parse_i32, parse_signed, parse_u64, signed_text,
    MINUS,
};
use crate::text::{is_ascii_bytes, lemma_ascii_is_utf8, NEWLINE, SPACE};

verus! {

/// A value that can stand on one line of a packet.
///
/// `wire` and `parse` say what the two directions do, over the value's view;
/// `write` and `read` carry them out.
pub trait MessagePart: Sized + View {
    /// The bytes in which `value` travels; `None` for a value that cannot be
    /// serialised.
    spec fn wire(value: Self::V) -> Option<Seq<u8>>;

    /// The value that `line` stands for; `None` where it stands for none.
    spec fn parse(line: Seq<u8>) -> Option<Self::V>;

    /// Appends the part's bytes at the writer's position. Succeeds exactly when
    /// the part has a serialised form and the writer has room for all of it.
    fn write(&self, writer: &mut BufWriter) -> (r: Result<(), BufError>)
        ensures
            final(writer).capacity() == old(writer).capacity(),
            r is Ok <==> Self::wire(self@) is Some && Self::wire(self@)->0.len() <= old(
                writer,
            ).room(),
            r is Ok ==> final(writer).written() == old(writer).written() + Self::wire(self@)->0,
    ;

    /// Reads a part from one line. Succeeds exactly on the lines that `parse`
    /// reads, with the value it gives.
    fn read(line: &str) -> (r: Result<Self, String>)
        ensures
            r is Ok <==> Self::parse(line.spec_bytes()) is Some,
            r is Ok ==> r->Ok_0@ == Self::parse(line.spec_bytes())->0,
    ;
}

/// Every serialised form of `P` is one non-empty line of UTF-8 that reads back
/// as the value it was made from.
pub open spec fn faithful<P: MessagePart>() -> bool {
    forall|value: P::V| #[trigger]
        P::wire(value) is Some ==> {
            let bytes = P::wire(value)->0;
            &&& bytes.len() > 0
            &&& !bytes.contains(NEWLINE)
            &&& valid_utf8(bytes)
            &&& P::parse(bytes) == Some(value)
        }
}

impl MessagePart for u64 {
    open spec fn wire(value: u64) -> Option<Seq<u8>> {
        Some(decimal_text(value as nat))
    }

    open spec fn parse(line: Seq<u8>) -> Option<u64> {
        parse_decimal(line)
    }

    fn write(&self, writer: &mut BufWriter) -> (r: Result<(), BufError>) {
        let text = format_u64(*self);
        writer.write(text.as_slice())
    }

    fn read(line: &str) -> (r: Result<u64, String>) {
        match parse_u64(line.as_bytes()) {
            Some(value) => Ok(value),
            None => Err("Not an unsigned 64-bit number".to_owned()),
        }
    }
}

impl MessagePart for i32 {
    open spec fn wire(value: i32) -> Option<Seq<u8>> {
        Some(signed_text(value as int))
    }

    open spec fn parse(line: Seq<u8>) -> Option<i32> {
        parse_signed(line)
    }

    fn write(&self, writer: &mut BufWriter) -> (r: Result<(), BufError>) {
        let text = format_i32(*self);
        writer.write(text.as_slice())
    }

    fn read(line: &str) -> (r: Result<i32, String>) {
        match parse_i32(line.as_bytes()) {
            Some(value) => Ok(value),
            None => Err("Not a signed 32-bit number".to_owned()),
        }
    }
}

/// Digits hold neither a line end nor a space, and are UTF-8.
pub proof fn lemma_digits_are_plain(text: Seq<u8>)
    requires
        all_digits(text),
    ensures
        !text.contains(NEWLINE),
        !text.contains(SPACE),
        is_ascii_bytes(text),
        valid_utf8(text),
{
    assert forall|i: int| 0 <= i < text.len() implies #[trigger] text[i] < 0x80 by {
        assert(is_digit(text[i]));
    }
    lemma_ascii_is_utf8(text);
    if text.contains(NEWLINE) {
        let i = choose|i: int| 0 <= i < text.len() && text[i] == NEWLINE;
        assert(is_digit(text[i]));
    }
    if text.contains(SPACE) {
        let i = choose|i: int| 0 <= i < text.len() && text[i] == SPACE;
        assert(is_digit(text[i]));
    }
}

/// The text of a signed number holds neither a line end nor a space, is UTF-8,
/// and reads back as the number.
pub proof fn lemma_signed_text(n: i32)
    ensures
        signed_text(n as int).len() > 0,
        !signed_text(n as int).contains(NEWLINE),
        !signed_text(n as int).contains(SPACE),
        valid_utf8(signed_text(n as int)),
        parse_signed(signed_text(n as int)) == Some(n),
{
    let text = signed_text(n as int);
    if n < 0 {
        let digits = decimal_text((-n) as nat);
        lemma_decimal_text_digits((-n) as nat);
        lemma_decimal_round_trip((-n) as nat);
        lemma_digits_are_plain(digits);
        assert(text.subrange(1, text.len() as int) =~= digits);
        assert(text[0] == MINUS);
        assert forall|i: int| 0 <= i < text.len() implies #[trigger] text[i] < 0x80 && text[i]
            != NEWLINE && text[i] != SPACE by {
            if i > 0 {
                assert(text[i] == digits[i - 1]);
                assert(is_digit(digits[i - 1]));
            }
        }
        lemma_ascii_is_utf8(text);
    } else {
        lemma_decimal_text_digits(n as nat);
        lemma_decimal_round_trip(n as nat);
        lemma_digits_are_plain(text);
        assert(is_digit(text[0]));
    }
}

/// Unsigned 64-bit numbers are faithful parts.
pub proof fn lemma_u64_faithful()
    ensures
        faithful::<u64>(),
{
    assert forall|value: u64| #[trigger] <u64 as MessagePart>::wire(value) is Some implies {
        let bytes = <u64 as MessagePart>::wire(value)->0;
        &&& bytes.len() > 0
        &&& !bytes.contains(NEWLINE)
        &&& valid_utf8(bytes)
        &&& <u64 as MessagePart>::parse(bytes) == Some(value)
    } by {
        lemma_decimal_text_digits(value as nat);
        lemma_decimal_round_trip(value as nat);
        lemma_digits_are_plain(decimal_text(value as nat));
    }
}

/// Signed 32-bit numbers are faithful parts.
pub proof fn lemma_i32_faithful()
    ensures
        faithful::<i32>(),
{
    assert forall|value: i32| #[trigger] <i32 as MessagePart>::wire(value) is Some implies {
        let bytes = <i32 as MessagePart>::wire(value)->0;
        &&& bytes.len() > 0
        &&& !bytes.contains(NEWLINE)
        &&& valid_utf8(bytes)
        &&& <i32 as MessagePart>::parse(bytes) == Some(value)
    } by {
        lemma_signed_text(value);
    }
}

} // verus!
