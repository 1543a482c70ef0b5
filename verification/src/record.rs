//! The two kinds of line that a message carries after its header: an entity
//! that was created or changed, and an entity that is gone.

use vstd::prelude::*;
use vstd::string::StringSliceAdditionalSpecFns;
use vstd::utf8::is_ascii_chars_encode_utf8;
use crate::buf_writer::{BufError, BufWriter};
use crate::text::{cut_at, find_byte, holds_byte, same_bytes, SPACE};
use crate::part::MessagePart;

verus! {

/// One line of a message's payload.
#[derive(Clone, PartialEq, Eq, Debug)]
pub enum Record<Id, Entity> {
    /// The entity `Id` now is `Entity`.
    Update(Id, Entity),
    /// The entity `Id` is gone.
    Destroy(Id),
}

impl<Id: View, Entity: View> View for Record<Id, Entity> {
    type V = Record<Id::V, Entity::V>;

    open spec fn view(&self) -> Record<Id::V, Entity::V> {
        match self {
            Record::Update(id, entity) => Record::Update(id@, entity@),
            Record::Destroy(id) => Record::Destroy(id@),
        }
    }
}

/// The word `UPDATE`.
pub open spec fn update_word() -> Seq<u8> {
    seq![0x55u8, 0x50u8, 0x44u8, 0x41u8, 0x54u8, 0x45u8]
}

/// The word `DESTROY`.
pub open spec fn destroy_word() -> Seq<u8> {
    seq![0x44u8, 0x45u8, 0x53u8, 0x54u8, 0x52u8, 0x4fu8, 0x59u8]
}

/// The line of an update: the word, the id and the entity, a space between
/// them.
pub open spec fn update_line(id: Seq<u8>, entity: Seq<u8>) -> Seq<u8> {
    update_word().push(SPACE) + id.push(SPACE) + entity
}

/// The line of a destroy: the word, a space and the id.
pub open spec fn destroy_line(id: Seq<u8>) -> Seq<u8> {
    destroy_word().push(SPACE) + id
}

/// The bytes of the word `UPDATE`, for writing and comparing.
fn update_bytes() -> (word: &'static [u8])
    ensures
        word@ == update_word(),
{
    let word = "UPDATE";
    proof {
        reveal_strlit("UPDATE");
        is_ascii_chars_encode_utf8(word@);
        assert(word.spec_bytes() =~= update_word());
    }
    word.as_bytes()
}

/// The bytes of the word `DESTROY`, for writing and comparing.
fn destroy_bytes() -> (word: &'static [u8])
    ensures
        word@ == destroy_word(),
{
    let word = "DESTROY";
    proof {
        reveal_strlit("DESTROY");
        is_ascii_chars_encode_utf8(word@);
        assert(word.spec_bytes() =~= destroy_word());
    }
    word.as_bytes()
}

impl<Id: MessagePart, Entity: MessagePart> MessagePart for Record<Id, Entity> {
    /// An update whose id or entity cannot be serialised, or whose id holds a
    /// space when serialised, has no line; nor has a destroy whose id cannot
    /// be serialised.
    open spec fn wire(value: Record<Id::V, Entity::V>) -> Option<Seq<u8>> {
        match value {
            Record::Update(id, entity) => {
                if Id::wire(id) is Some && Entity::wire(entity) is Some && !Id::wire(
                    id,
                )->0.contains(SPACE) {
                    Some(update_line(Id::wire(id)->0, Entity::wire(entity)->0))
                } else {
                    None
                }
            },
            Record::Destroy(id) => {
                if Id::wire(id) is Some {
                    Some(destroy_line(Id::wire(id)->0))
                } else {
                    None
                }
            },
        }
    }

    /// A line is read by its first word, which a space ends. After `UPDATE`
    /// the id stands before the next space and the entity after it; after
    /// `DESTROY` the rest of the line is the id.
    open spec fn parse(line: Seq<u8>) -> Option<Record<Id::V, Entity::V>> {
        let word_end = find_byte(line, SPACE) as int;
        if word_end >= line.len() {
            None
        } else {
            let word = line.take(word_end);
            let rest = line.skip(word_end + 1);
            if word == update_word() {
                let id_end = find_byte(rest, SPACE) as int;
                if id_end >= rest.len() {
                    None
                } else if Id::parse(rest.take(id_end)) is Some && Entity::parse(
                    rest.skip(id_end + 1),
                ) is Some {
                    Some(
                        Record::Update(
                            Id::parse(rest.take(id_end))->0,
                            Entity::parse(rest.skip(id_end + 1))->0,
                        ),
                    )
                } else {
                    None
                }
            } else if word == destroy_word() {
                if Id::parse(rest) is Some {
                    Some(Record::Destroy(Id::parse(rest)->0))
                } else {
                    None
                }
            } else {
                None
            }
        }
    }

    fn write(&self, writer: &mut BufWriter) -> (r: Result<(), BufError>) {
        let space: [u8; 1] = [SPACE];
        assert(space@ =~= seq![SPACE]);
        match self {
            Record::Update(id, entity) => {
                match writer.write(update_bytes()) {
                    Ok(()) => {},
                    Err(error) => {
                        return Err(error);
                    },
                }
                match writer.write(space.as_slice()) {
                    Ok(()) => {},
                    Err(error) => {
                        return Err(error);
                    },
                }
                let start: u64 = writer.tell();
                match id.write(writer) {
                    Ok(()) => {},
                    Err(error) => {
                        return Err(error);
                    },
                }
                let filled = writer.filled();
                let id_bytes = vstd::slice::slice_subrange(filled, start as usize, filled.len());
                assert(id_bytes@ =~= Id::wire(id@)->0);
                if holds_byte(id_bytes, SPACE) {
                    return Err(BufError::Unencodable);
                }
                match writer.write(space.as_slice()) {
                    Ok(()) => {},
                    Err(error) => {
                        return Err(error);
                    },
                }
                let outcome = entity.write(writer);
                proof {
                    if outcome is Ok {
                        assert(writer.written() =~= old(writer).written() + update_line(
                            Id::wire(id@)->0,
                            Entity::wire(entity@)->0,
                        ));
                    }
                }
                outcome
            },
            Record::Destroy(id) => {
                match writer.write(destroy_bytes()) {
                    Ok(()) => {},
                    Err(error) => {
                        return Err(error);
                    },
                }
                match writer.write(space.as_slice()) {
                    Ok(()) => {},
                    Err(error) => {
                        return Err(error);
                    },
                }
                let outcome = id.write(writer);
                proof {
                    if outcome is Ok {
                        assert(writer.written() =~= old(writer).written() + destroy_line(
                            Id::wire(id@)->0,
                        ));
                    }
                }
                outcome
            },
        }
    }

    fn read(line: &str) -> (r: Result<Record<Id, Entity>, String>) {
        let (word, rest) = cut_at(line, SPACE);
        let rest: &str = match rest {
            Some(rest) => rest,
            None => {
                return Err("Record has no content".to_owned());
            },
        };
        if same_bytes(word.as_bytes(), update_bytes()) {
            let (id_text, entity_text) = cut_at(rest, SPACE);
            let entity_text: &str = match entity_text {
                Some(entity_text) => entity_text,
                None => {
                    return Err("Update has no entity".to_owned());
                },
            };
            let id = match Id::read(id_text) {
                Ok(id) => id,
                Err(reason) => {
                    return Err(reason);
                },
            };
            match Entity::read(entity_text) {
                Ok(entity) => Ok(Record::Update(id, entity)),
                Err(reason) => Err(reason),
            }
        } else if same_bytes(word.as_bytes(), destroy_bytes()) {
            match Id::read(rest) {
                Ok(id) => Ok(Record::Destroy(id)),
                Err(reason) => Err(reason),
            }
        } else {
            Err("Unknown kind of record".to_owned())
        }
    }
}

} // verus!
