//! The payload that travels every tick: which entities are new or changed, and
//! which are gone.

use vstd::prelude::*;
use vstd::std_specs::iter::IteratorSpec;
use vstd::std_specs::slice::into_iter_elts;
use vstd::utf8::valid_utf8;
use core::slice::Iter;
use crate::buf_writer::zeroed;
use crate::decoder::{
    decode_packet, first_unreadable, header_line, part_lines, part_views, parts_of,
    well_formed_packet, DecodeError,
};
use crate::encoder::{packed, MessageEncoder};
use crate::part::MessagePart;
use crate::record::Record;
use crate::text::NEWLINE;
use crate::MAX_PACKET_SIZE;

verus! {

/// An envelope of entity changes under a header.
///
/// `update` holds the entities created or changed since the state that the peer
/// last acknowledged, `destroy` the ids of those removed since then; both in
/// the order in which they were added. A message is coherent when no id stands
/// in both lists.
#[derive(Clone, PartialEq, Debug)]
pub struct Message<Header, Id, Entity> {
    pub header: Header,
    pub update: Vec<(Id, Entity)>,
    pub destroy: Vec<Id>,
}

/// What a message says, apart from how its values are held.
pub struct MessageView<Header, Id, Entity> {
    pub header: Header,
    pub update: Seq<(Id, Entity)>,
    pub destroy: Seq<Id>,
}

impl<Header, Id, Entity> MessageView<Header, Id, Entity> {
    /// `id` is the id of an update of the message.
    pub open spec fn updates(self, id: Id) -> bool {
        exists|i: int| 0 <= i < self.update.len() && (#[trigger] self.update[i]).0 == id
    }

    /// `id` is among the ids that the message destroys.
    pub open spec fn destroys(self, id: Id) -> bool {
        self.destroy.contains(id)
    }

    /// No id is both updated and destroyed.
    pub open spec fn coherent(self) -> bool {
        forall|id: Id| !(self.updates(id) && self.destroys(id))
    }
}

/// The views of update pairs, in order.
pub open spec fn pair_views<Id: View, Entity: View>(pairs: Seq<(Id, Entity)>) -> Seq<
    (Id::V, Entity::V),
> {
    pairs.map_values(|pair: (Id, Entity)| (pair.0@, pair.1@))
}

/// The views of ids, in order.
pub open spec fn id_views<Id: View>(ids: Seq<Id>) -> Seq<Id::V> {
    ids.map_values(|id: Id| id@)
}

impl<Header: View, Id: View, Entity: View> View for Message<Header, Id, Entity> {
    type V = MessageView<Header::V, Id::V, Entity::V>;

    open spec fn view(&self) -> MessageView<Header::V, Id::V, Entity::V> {
        MessageView {
            header: self.header@,
            update: pair_views(self.update@),
            destroy: id_views(self.destroy@),
        }
    }
}

impl<Header: View, Id: View, Entity: View> Message<Header, Id, Entity> {
    /// Adds an entity that was created or changed, behind those already there.
    /// The id must not be among those that the message destroys.
    pub fn update(&mut self, update: (Id, Entity))
        requires
            !old(self)@.destroys(update.0@),
        ensures
            final(self).update@ == old(self).update@.push(update),
            final(self).destroy == old(self).destroy,
            final(self).header == old(self).header,
            final(self)@.update == old(self)@.update.push((update.0@, update.1@)),
            old(self)@.coherent() ==> final(self)@.coherent(),
    {
        self.update.push(update);
        proof {
            assert(pair_views(self.update@) =~= pair_views(old(self).update@).push(
                (update.0@, update.1@),
            ));
            if old(self)@.coherent() {
                assert forall|id: Id::V| !(self@.updates(id) && self@.destroys(id)) by {
                    if self@.updates(id) && self@.destroys(id) {
                        let i = choose|i: int|
                            0 <= i < self@.update.len() && (#[trigger] self@.update[i]).0 == id;
                        if i < old(self)@.update.len() {
                            assert(old(self)@.update[i].0 == id);
                            assert(old(self)@.updates(id));
                        }
                    }
                }
            }
        }
    }

    /// Adds the id of an entity that was removed, behind those already there.
    /// The id must not be the id of an update of the message.
    pub fn destroy(&mut self, destroy: Id)
        requires
            !old(self)@.updates(destroy@),
        ensures
            final(self).destroy@ == old(self).destroy@.push(destroy),
            final(self).update == old(self).update,
            final(self).header == old(self).header,
            final(self)@.destroy == old(self)@.destroy.push(destroy@),
            old(self)@.coherent() ==> final(self)@.coherent(),
    {
        self.destroy.push(destroy);
        proof {
            assert(id_views(self.destroy@) =~= id_views(old(self).destroy@).push(destroy@));
            if old(self)@.coherent() {
                assert forall|id: Id::V| !(self@.updates(id) && self@.destroys(id)) by {
                    if self@.updates(id) && self@.destroys(id) {
                        let j = choose|j: int|
                            0 <= j < self@.destroy.len() && self@.destroy[j] == id;
                        let i = choose|i: int|
                            0 <= i < self@.update.len() && (#[trigger] self@.update[i]).0 == id;
                        assert(old(self)@.update[i].0 == id);
                        assert(old(self)@.updates(id));
                        if j < old(self)@.destroy.len() {
                            assert(old(self)@.destroy[j] == id);
                            assert(old(self)@.destroys(id));
                        }
                    }
                }
            }
        }
    }

    /// Walks the updates in the order in which they were added, and leaves
    /// them where they are.
    pub fn update_items(&self) -> (items: Iter<'_, (Id, Entity)>)
        ensures
            into_iter_elts(items) == self.update@,
            IteratorSpec::decrease(&items) is Some,
            IteratorSpec::initial_value_relation(&items, &items),
    {
        self.update.iter()
    }

    /// Walks the destroyed ids in the order in which they were added, and
    /// leaves them where they are.
    pub fn destroy_items(&self) -> (items: Iter<'_, Id>)
        ensures
            into_iter_elts(items) == self.destroy@,
            IteratorSpec::decrease(&items) is Some,
            IteratorSpec::initial_value_relation(&items, &items),
    {
        self.destroy.iter()
    }

    /// Takes the updates out of the message, in the order in which they were
    /// added. The message keeps its header and its destroyed ids and has no
    /// update left.
    pub fn drain_update_items(&mut self) -> (items: Vec<(Id, Entity)>)
        ensures
            items@ == old(self).update@,
            final(self).update@ == Seq::<(Id, Entity)>::empty(),
            final(self).destroy == old(self).destroy,
            final(self).header == old(self).header,
            old(self)@.coherent() ==> final(self)@.coherent(),
    {
        let mut items: Vec<(Id, Entity)> = Vec::new();
        core::mem::swap(&mut self.update, &mut items);
        proof {
            assert(pair_views(self.update@) =~= Seq::<(Id::V, Entity::V)>::empty());
            assert forall|id: Id::V| !self@.updates(id) by {}
        }
        items
    }
}

/// The records of a message in the order in which they travel: the updates,
/// then the destroyed ids.
pub open spec fn records_of<Id, Entity>(update: Seq<(Id, Entity)>, destroy: Seq<Id>) -> Seq<
    Record<Id, Entity>,
> {
    update.map_values(|pair: (Id, Entity)| Record::Update(pair.0, pair.1)) + destroy.map_values(
        |id: Id| Record::Destroy(id),
    )
}

/// The updates among `records`, in order.
pub open spec fn updates_in<Id, Entity>(records: Seq<Record<Id, Entity>>) -> Seq<(Id, Entity)>
    decreases records.len(),
{
    if records.len() == 0 {
        Seq::<(Id, Entity)>::empty()
    } else {
        let before = updates_in(records.drop_last());
        match records.last() {
            Record::Update(id, entity) => before.push((id, entity)),
            Record::Destroy(_) => before,
        }
    }
}

/// The destroyed ids among `records`, in order.
pub open spec fn destroys_in<Id, Entity>(records: Seq<Record<Id, Entity>>) -> Seq<Id>
    decreases records.len(),
{
    if records.len() == 0 {
        Seq::<Id>::empty()
    } else {
        let before = destroys_in(records.drop_last());
        match records.last() {
            Record::Update(_, _) => before,
            Record::Destroy(id) => before.push(id),
        }
    }
}

impl<Header, Id, Entity> Message<Header, Id, Entity> where
    Header: MessagePart + Default,
    Id: MessagePart,
    Entity: MessagePart,
 {
    /// A message with the default header and nothing to update or destroy.
    pub fn new() -> (message: Message<Header, Id, Entity>)
        ensures
            Header::default.ensures((), message.header),
            message.update@ == Seq::<(Id, Entity)>::empty(),
            message.destroy@ == Seq::<Id>::empty(),
            message@.coherent(),
    {
        let message = Message {
            header: Header::default(),
            update: Vec::new(),
            destroy: Vec::new(),
        };
        proof {
            assert forall|id: Id::V| !message@.destroys(id) by {}
        }
        message
    }

    /// The message as one packet: the line of the header, then a line for
    /// each update and each destroyed id that the packet accepts. `None`,
    /// when the header has no serialised form or its line is longer than a
    /// packet.
    pub fn try_encode(self) -> (r: Option<Vec<u8>>)
        ensures
            r is Some <==> Header::wire(self@.header) is Some && Header::wire(
                self@.header,
            )->0.len() + 1 <= MAX_PACKET_SIZE,
            r is Some ==> r->0@ == packed::<Record<Id, Entity>>(
                Header::wire(self@.header)->0.push(NEWLINE),
                MAX_PACKET_SIZE as nat,
                records_of(self@.update, self@.destroy),
            ),
    {
        let ghost line = Header::wire(self@.header)->0.push(NEWLINE);
        let ghost updates = records_of(self@.update, Seq::<Id::V>::empty());
        let ghost records = records_of(self@.update, self@.destroy);
        let Message { header, update, destroy } = self;
        let ghost pairs = update@;
        let ghost ids = destroy@;
        let mut encoder: MessageEncoder<Record<Id, Entity>> = match MessageEncoder::with_header(
            zeroed(MAX_PACKET_SIZE),
            &header,
        ) {
            Some(encoder) => encoder,
            None => {
                return None;
            },
        };
        for pair in items: update
            invariant
                items.seq() == pairs,
                updates == records_of(pair_views(pairs), Seq::<Id::V>::empty()),
                encoder.capacity() == MAX_PACKET_SIZE,
                encoder.written() == packed::<Record<Id, Entity>>(
                    line,
                    MAX_PACKET_SIZE as nat,
                    updates.take(items.index()),
                ),
        {
            let ghost i = items.index();
            let (id, entity) = pair;
            let record = Record::Update(id, entity);
            proof {
                assert(updates.take(i + 1).drop_last() =~= updates.take(i));
                assert(updates.take(i + 1).last() == record@);
            }
            encoder.add(&record);
        }
        proof {
            assert(updates.take(pairs.len() as int) =~= updates);
            assert(records.take(updates.len() as int) =~= updates);
        }
        for id in items: destroy
            invariant
                items.seq() == ids,
                updates.len() == pairs.len(),
                records == records_of(pair_views(pairs), id_views(ids)),
                encoder.capacity() == MAX_PACKET_SIZE,
                encoder.written() == packed::<Record<Id, Entity>>(
                    line,
                    MAX_PACKET_SIZE as nat,
                    records.take(updates.len() + items.index()),
                ),
        {
            let ghost i = updates.len() + items.index();
            let record: Record<Id, Entity> = Record::Destroy(id);
            proof {
                assert(records.take(i + 1).drop_last() =~= records.take(i));
                assert(records.take(i + 1).last() == record@);
            }
            encoder.add(&record);
        }
        proof {
            assert(records.take((updates.len() + ids.len()) as int) =~= records);
        }
        Some(encoder.into_bytes())
    }

    /// The message as one packet, as `try_encode` gives it. The header must
    /// have a serialised form whose line is no longer than a packet.
    pub fn encode(self) -> (bytes: Vec<u8>)
        requires
            Header::wire(self@.header) is Some,
            Header::wire(self@.header)->0.len() + 1 <= MAX_PACKET_SIZE,
        ensures
            bytes@ == packed::<Record<Id, Entity>>(
                Header::wire(self@.header)->0.push(NEWLINE),
                MAX_PACKET_SIZE as nat,
                records_of(self@.update, self@.destroy),
            ),
    {
        self.try_encode().unwrap()
    }

    /// Reads a message from one packet: the header from the first line, and
    /// from every later line that is not empty an update or a destroyed id,
    /// each list in the order of its lines. A packet that is not well formed
    /// gives the first error that applies, in the order of `DecodeError`.
    pub fn decode(buffer: &[u8]) -> (r: Result<Message<Header, Id, Entity>, DecodeError>)
        ensures
            r is Ok <==> well_formed_packet::<Header, Record<Id, Entity>>(buffer@),
            r is Ok ==> r->Ok_0@ == (MessageView {
                header: Header::parse(header_line(buffer@))->0,
                update: updates_in(parts_of::<Record<Id, Entity>>(part_lines(buffer@))),
                destroy: destroys_in(parts_of::<Record<Id, Entity>>(part_lines(buffer@))),
            }),
            r is Err ==> (r->Err_0 is TooLarge <==> buffer@.len() > MAX_PACKET_SIZE),
            r is Err ==> (r->Err_0 is NotUtf8 <==> buffer@.len() <= MAX_PACKET_SIZE
                && !valid_utf8(buffer@)),
            r is Err ==> (r->Err_0 is Header <==> buffer@.len() <= MAX_PACKET_SIZE && valid_utf8(
                buffer@,
            ) && Header::parse(header_line(buffer@)) is None),
            r is Err ==> (r->Err_0 matches DecodeError::Part { line, .. } ==> first_unreadable::<
                Record<Id, Entity>,
            >(part_lines(buffer@)) == Some(line as int - 1)),
    {
        let mut records: Vec<Record<Id, Entity>> = Vec::new();
        let header = match decode_packet::<Header, Record<Id, Entity>>(buffer, &mut records) {
            Ok(header) => header,
            Err(error) => {
                return Err(error);
            },
        };
        let ghost read = records@;
        let ghost values = part_views(read);
        proof {
            assert(read.skip(0) =~= read);
        }
        let mut update: Vec<(Id, Entity)> = Vec::new();
        let mut destroy: Vec<Id> = Vec::new();
        assert(pair_views(update@) =~= updates_in(values.take(0)));
        assert(id_views(destroy@) =~= destroys_in(values.take(0)));
        for record in items: records
            invariant
                items.seq() == read,
                values == part_views(read),
                pair_views(update@) == updates_in(values.take(items.index())),
                id_views(destroy@) == destroys_in(values.take(items.index())),
        {
            let ghost i = items.index();
            proof {
                assert(values.take(i + 1).drop_last() =~= values.take(i));
                assert(values.take(i + 1).last() == record@);
            }
            match record {
                Record::Update(id, entity) => {
                    update.push((id, entity));
                    assert(pair_views(update@) =~= updates_in(values.take(i + 1)));
                },
                Record::Destroy(id) => {
                    destroy.push(id);
                    assert(id_views(destroy@) =~= destroys_in(values.take(i + 1)));
                },
            }
        }
        proof {
            assert(values.take(read.len() as int) =~= values);
        }
        Ok(Message { header, update, destroy })
    }
}

} // verus!
