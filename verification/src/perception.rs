//! The message that the server sends to a client: what the client perceives of
//! the world.

use vstd::prelude::*;
use vstd::string::StringSliceAdditionalSpecFns;
use vstd::utf8::{valid_utf8, valid_utf8_concat};
use crate::buf_writer::{BufError, BufWriter};
use crate::decimal::{
    decimal_text, format_u64, lemma_decimal_round_trip, lemma_decimal_text_digits, parse_decimal,
    parse_u64,
};
use crate::json::lemma_string_faithful;
use crate::message::Message;
use crate::text::{
    cut_at, find_byte, lemma_ascii_is_utf8, lemma_find_byte, lemma_find_byte_at, NEWLINE, SPACE,
};
use crate::part::{faithful, lemma_digits_are_plain, MessagePart};
use crate::Sequence;

verus! {

/// The header of a perception.
#[derive(Clone, PartialEq, Eq, Debug)]
pub struct PerceptionHeader {
    /// The last action of the client that has taken effect.
    pub confirm_action: Sequence,
    /// The id of the client's own entity, once it has one.
    pub self_id: Option<String>,
}

/// What a perception header says.
pub struct PerceptionHeaderView {
    pub confirm_action: Sequence,
    pub self_id: Option<Seq<char>>,
}

/// The entity-synchronisation message from server to client.
pub type Perception<Id, Entity> = Message<PerceptionHeader, Id, Entity>;

impl View for PerceptionHeader {
    type V = PerceptionHeaderView;

    open spec fn view(&self) -> PerceptionHeaderView {
        PerceptionHeaderView {
            confirm_action: self.confirm_action,
            self_id: match self.self_id {
                Some(id) => Some(id@),
                None => None,
            },
        }
    }
}

impl Default for PerceptionHeader {
    /// The header that confirms no action and names no entity.
    fn default() -> (header: PerceptionHeader)
        ensures
            header.confirm_action == 0,
            header.self_id is None,
    {
        PerceptionHeader { confirm_action: 0, self_id: None }
    }
}

impl MessagePart for PerceptionHeader {
    /// The confirmed action in decimal; then, where the header names an
    /// entity, a space and the id as a string part.
    open spec fn wire(value: PerceptionHeaderView) -> Option<Seq<u8>> {
        match value.self_id {
            None => Some(decimal_text(value.confirm_action as nat)),
            Some(id) => {
                let text = <String as MessagePart>::wire(id);
                if text is Some {
                    Some(decimal_text(value.confirm_action as nat).push(SPACE) + text->0)
                } else {
                    None
                }
            },
        }
    }

    /// A number alone is a header that names no entity; a number, a space and
    /// a string part is one that names the entity of that id.
    open spec fn parse(line: Seq<u8>) -> Option<PerceptionHeaderView> {
        let end = find_byte(line, SPACE) as int;
        if end >= line.len() {
            match parse_decimal(line) {
                Some(confirm_action) => Some(
                    PerceptionHeaderView { confirm_action, self_id: None },
                ),
                None => None,
            }
        } else {
            let id = <String as MessagePart>::parse(line.skip(end + 1));
            match (parse_decimal(line.take(end)), id) {
                (Some(confirm_action), Some(id)) => Some(
                    PerceptionHeaderView { confirm_action, self_id: Some(id) },
                ),
                _ => None,
            }
        }
    }

    fn write(&self, writer: &mut BufWriter) -> (r: Result<(), BufError>) {
        let number = format_u64(self.confirm_action);
        match writer.write(number.as_slice()) {
            Ok(()) => {},
            Err(error) => {
                return Err(error);
            },
        }
        match &self.self_id {
            None => Ok(()),
            Some(id) => {
                let space: [u8; 1] = [SPACE];
                assert(space@ =~= seq![SPACE]);
                match writer.write(space.as_slice()) {
                    Ok(()) => {},
                    Err(error) => {
                        return Err(error);
                    },
                }
                let outcome = id.write(writer);
                proof {
                    if outcome is Ok {
                        assert(writer.written() =~= old(writer).written() + Self::wire(self@)->0);
                    }
                }
                outcome
            },
        }
    }

    fn read(line: &str) -> (r: Result<PerceptionHeader, String>) {
        let (number, rest) = cut_at(line, SPACE);
        proof {
            lemma_find_byte(line.spec_bytes(), SPACE);
            if rest is None {
                assert(line.spec_bytes().take(line.spec_bytes().len() as int)
                    =~= line.spec_bytes());
            }
        }
        let confirm_action = match parse_u64(number.as_bytes()) {
            Some(confirm_action) => confirm_action,
            None => {
                return Err("Perception header does not start with a number".to_owned());
            },
        };
        match rest {
            None => Ok(PerceptionHeader { confirm_action, self_id: None }),
            Some(text) => {
                match String::read(text) {
                    Ok(id) => Ok(PerceptionHeader { confirm_action, self_id: Some(id) }),
                    Err(reason) => Err(reason),
                }
            },
        }
    }
}

/// Perception headers are faithful parts.
pub proof fn lemma_perception_header_faithful()
    ensures
        faithful::<PerceptionHeader>(),
{
    lemma_string_faithful();
    assert forall|value: PerceptionHeaderView| #[trigger]
        <PerceptionHeader as MessagePart>::wire(value) is Some implies {
        let bytes = <PerceptionHeader as MessagePart>::wire(value)->0;
        &&& bytes.len() > 0
        &&& !bytes.contains(NEWLINE)
        &&& valid_utf8(bytes)
        &&& <PerceptionHeader as MessagePart>::parse(bytes) == Some(value)
    } by {
        let number = decimal_text(value.confirm_action as nat);
        lemma_decimal_text_digits(value.confirm_action as nat);
        lemma_decimal_round_trip(value.confirm_action as nat);
        lemma_digits_are_plain(number);
        let bytes = <PerceptionHeader as MessagePart>::wire(value)->0;
        match value.self_id {
            None => {
                assert forall|i: int| 0 <= i < number.len() implies number[i] != SPACE by {
                    assert(number.contains(number[i]));
                }
                lemma_find_byte_at(number, SPACE, number.len() as int);
            },
            Some(id) => {
                let text = <String as MessagePart>::wire(id)->0;
                assert(<String as MessagePart>::wire(id) is Some);
                assert(bytes =~= number + seq![SPACE] + text);
                assert forall|i: int| 0 <= i < bytes.len() implies bytes[i] != NEWLINE by {
                    if i < number.len() {
                        assert(bytes[i] == number[i]);
                        assert(number.contains(number[i]));
                    } else if i == number.len() {
                    } else {
                        assert(bytes[i] == text[i - number.len() - 1]);
                        assert(text.contains(text[i - number.len() - 1]));
                    }
                }
                let gap = seq![SPACE];
                assert(gap[0] < 0x80);
                lemma_ascii_is_utf8(gap);
                valid_utf8_concat(number, gap);
                valid_utf8_concat(number + gap, text);
                assert forall|i: int| 0 <= i < number.len() implies bytes[i] != SPACE by {
                    assert(bytes[i] == number[i]);
                    assert(number.contains(number[i]));
                }
                lemma_find_byte_at(bytes, SPACE, number.len() as int);
                assert(bytes.take(number.len() as int) =~= number);
                assert(bytes.skip(number.len() as int + 1) =~= text);
            },
        }
    }
}

} // verus!
