//! What is written can be read: packets and messages that are within the size
//! limits decode to what was encoded.

use vstd::prelude::*;
use vstd::utf8::{valid_utf8, valid_utf8_concat};
use crate::decoder::{
    first_unreadable, header_line, part_lines, parts_of, well_formed_packet,
};
use crate::encoder::{accepts, packed};
use crate::message::{destroys_in, records_of, updates_in, MessageView};
use crate::packet::{
    lemma_packet_text_concat, lemma_split_packet_text, packet_text, single_lines, split_lines,
};
use crate::text::{lemma_ascii_is_utf8, lemma_find_byte_at, NEWLINE, SPACE};
use crate::part::{faithful, MessagePart};
use crate::record::{destroy_line, destroy_word, update_line, update_word, Record};
use crate::MAX_PACKET_SIZE;

verus! {

/// The serialised forms of `parts`, in order.
pub open spec fn wires<P: MessagePart>(parts: Seq<P::V>) -> Seq<Seq<u8>> {
    parts.map_values(|part: P::V| P::wire(part)->0)
}

/// Every one of `parts` has a serialised form.
pub open spec fn serialisable<P: MessagePart>(parts: Seq<P::V>) -> bool {
    forall|i: int| 0 <= i < parts.len() ==> P::wire(#[trigger] parts[i]) is Some
}

/// A packet of the line `head` and the lines of `parts`, all of them fitting
/// into `capacity` bytes.
pub open spec fn fits<P: MessagePart>(head: Seq<u8>, capacity: nat, parts: Seq<P::V>) -> bool {
    serialisable::<P>(parts) && head.len() + packet_text(wires::<P>(parts)).len() <= capacity
}

/// Where everything fits, nothing is left out: the packet is the head and the
/// lines of all parts.
pub proof fn lemma_packed_all<P: MessagePart>(head: Seq<u8>, capacity: nat, parts: Seq<P::V>)
    requires
        fits::<P>(head, capacity, parts),
    ensures
        packed::<P>(head, capacity, parts) == head + packet_text(wires::<P>(parts)),
    decreases parts.len(),
{
    if parts.len() == 0 {
        assert(head + packet_text(wires::<P>(parts)) =~= head);
    } else {
        let shorter = parts.drop_last();
        let last = parts.last();
        assert(wires::<P>(parts).drop_last() =~= wires::<P>(shorter));
        assert(wires::<P>(parts).last() == P::wire(last)->0);
        assert forall|i: int| 0 <= i < shorter.len() implies P::wire(
            #[trigger] shorter[i],
        ) is Some by {
            assert(shorter[i] == parts[i]);
        }
        lemma_packed_all::<P>(head, capacity, shorter);
        let so_far = packed::<P>(head, capacity, shorter);
        assert(accepts::<P>(so_far, capacity, last));
        assert(packed::<P>(head, capacity, parts) =~= head + packet_text(wires::<P>(parts)));
    }
}

/// The lines of faithful parts are lines, and are UTF-8 together.
pub proof fn lemma_wires_are_lines<P: MessagePart>(parts: Seq<P::V>)
    requires
        faithful::<P>(),
        serialisable::<P>(parts),
    ensures
        single_lines(wires::<P>(parts)),
        valid_utf8(packet_text(wires::<P>(parts))),
        first_unreadable::<P>(wires::<P>(parts)) is None,
        parts_of::<P>(wires::<P>(parts)) == parts,
    decreases parts.len(),
{
    let lines = wires::<P>(parts);
    if parts.len() == 0 {
        assert(parts_of::<P>(lines) =~= parts);
    } else {
        let shorter = parts.drop_last();
        let last = parts.last();
        assert(lines.drop_last() =~= wires::<P>(shorter));
        assert(lines.last() == P::wire(last)->0);
        assert forall|i: int| 0 <= i < shorter.len() implies P::wire(
            #[trigger] shorter[i],
        ) is Some by {
            assert(shorter[i] == parts[i]);
        }
        lemma_wires_are_lines::<P>(shorter);
        assert(P::wire(last) is Some);
        let bytes = P::wire(last)->0;
        assert forall|i: int| 0 <= i < lines.len() implies !(#[trigger] lines[i]).contains(
            NEWLINE,
        ) by {
            assert(P::wire(parts[i]) is Some);
        }
        lemma_line_is_utf8(bytes);
        valid_utf8_concat(packet_text(lines.drop_last()), bytes.push(NEWLINE));
        assert(parts_of::<P>(lines) =~= parts);
    }
}

/// A line of UTF-8 stays UTF-8 with its line end.
pub proof fn lemma_line_is_utf8(bytes: Seq<u8>)
    requires
        valid_utf8(bytes),
    ensures
        valid_utf8(bytes.push(NEWLINE)),
{
    let end = seq![NEWLINE];
    assert(end[0] < 0x80);
    lemma_ascii_is_utf8(end);
    valid_utf8_concat(bytes, end);
    assert(bytes.push(NEWLINE) =~= bytes + end);
}

/// An empty line behind readable lines changes neither that they are
/// readable nor what they hold.
pub proof fn lemma_empty_last_line<P: MessagePart>(lines: Seq<Seq<u8>>)
    ensures
        first_unreadable::<P>(lines.push(Seq::<u8>::empty())) == first_unreadable::<P>(lines),
        parts_of::<P>(lines.push(Seq::<u8>::empty())) == parts_of::<P>(lines),
{
    let longer = lines.push(Seq::<u8>::empty());
    assert(longer.drop_last() =~= lines);
}

/// A packet reads back: the packet of a header and of parts that all fit is
/// well formed, its header line stands for the header and its part lines for
/// the parts, in order.
pub proof fn lemma_packet_round_trip<H: MessagePart, P: MessagePart>(
    header: H::V,
    parts: Seq<P::V>,
)
    requires
        faithful::<H>(),
        faithful::<P>(),
        H::wire(header) is Some,
        fits::<P>(H::wire(header)->0.push(NEWLINE), MAX_PACKET_SIZE as nat, parts),
    ensures
        ({
            let bytes = packed::<P>(
                H::wire(header)->0.push(NEWLINE),
                MAX_PACKET_SIZE as nat,
                parts,
            );
            &&& well_formed_packet::<H, P>(bytes)
            &&& H::parse(header_line(bytes)) == Some(header)
            &&& parts_of::<P>(part_lines(bytes)) == parts
        }),
{
    let head = H::wire(header)->0;
    let lines = wires::<P>(parts);
    let bytes = packed::<P>(head.push(NEWLINE), MAX_PACKET_SIZE as nat, parts);
    lemma_packed_all::<P>(head.push(NEWLINE), MAX_PACKET_SIZE as nat, parts);
    lemma_wires_are_lines::<P>(parts);
    let all = seq![head] + lines;
    lemma_packet_text_concat(seq![head], lines);
    assert(packet_text(seq![head]) =~= head.push(NEWLINE)) by {
        assert(seq![head].drop_last() =~= Seq::<Seq<u8>>::empty());
        assert(packet_text(seq![head].drop_last()) =~= Seq::<u8>::empty());
    }
    assert(bytes == packet_text(all));
    assert forall|i: int| 0 <= i < all.len() implies !(#[trigger] all[i]).contains(NEWLINE) by {
        if i > 0 {
            assert(all[i] == lines[i - 1]);
        }
    }
    lemma_split_packet_text(all);
    let empty = Seq::<u8>::empty();
    assert(split_lines(bytes) == all.push(empty));
    assert(header_line(bytes) == head);
    assert(part_lines(bytes) =~= lines.push(empty));
    lemma_empty_last_line::<P>(lines);
    lemma_line_is_utf8(head);
    valid_utf8_concat(head.push(NEWLINE), packet_text(lines));
}

/// Those of `parts` that a packet accepts when they are offered in turn.
pub open spec fn kept<P: MessagePart>(written: Seq<u8>, capacity: nat, parts: Seq<P::V>) -> Seq<
    P::V,
>
    decreases parts.len(),
{
    if parts.len() == 0 {
        Seq::<P::V>::empty()
    } else {
        let before = kept::<P>(written, capacity, parts.drop_last());
        if accepts::<P>(packed::<P>(written, capacity, parts.drop_last()), capacity, parts.last()) {
            before.push(parts.last())
        } else {
            before
        }
    }
}

/// A packet holds the lines of the parts it accepted and nothing else: a part
/// that is refused leaves no trace, and takes nothing from the parts before
/// it.
pub proof fn lemma_packed_kept<P: MessagePart>(written: Seq<u8>, capacity: nat, parts: Seq<P::V>)
    ensures
        serialisable::<P>(kept::<P>(written, capacity, parts)),
        packed::<P>(written, capacity, parts) == written + packet_text(
            wires::<P>(kept::<P>(written, capacity, parts)),
        ),
        packed::<P>(written, capacity, parts).len() <= capacity || packed::<P>(
            written,
            capacity,
            parts,
        ) == written,
    decreases parts.len(),
{
    if parts.len() == 0 {
        assert(written + packet_text(wires::<P>(kept::<P>(written, capacity, parts))) =~= written);
    } else {
        let shorter = parts.drop_last();
        let last = parts.last();
        lemma_packed_kept::<P>(written, capacity, shorter);
        let before = kept::<P>(written, capacity, shorter);
        if accepts::<P>(packed::<P>(written, capacity, shorter), capacity, last) {
            let now = before.push(last);
            assert(wires::<P>(now).drop_last() =~= wires::<P>(before));
            assert(wires::<P>(now).last() == P::wire(last)->0);
            assert forall|i: int| 0 <= i < now.len() implies P::wire(#[trigger] now[i]) is Some by {
                if i < before.len() {
                    assert(now[i] == before[i]);
                }
            }
            assert(packed::<P>(written, capacity, parts) =~= written + packet_text(
                wires::<P>(now),
            ));
        }
    }
}

/// A packet reads back as what it accepted: whatever parts were offered, the
/// packet is well formed, its header line stands for the header, and its part
/// lines stand for the parts that were accepted, in order.
pub proof fn lemma_packet_keeps_accepted<H: MessagePart, P: MessagePart>(
    header: H::V,
    parts: Seq<P::V>,
)
    requires
        faithful::<H>(),
        faithful::<P>(),
        H::wire(header) is Some,
        H::wire(header)->0.len() + 1 <= MAX_PACKET_SIZE,
    ensures
        ({
            let head = H::wire(header)->0.push(NEWLINE);
            let bytes = packed::<P>(head, MAX_PACKET_SIZE as nat, parts);
            &&& well_formed_packet::<H, P>(bytes)
            &&& H::parse(header_line(bytes)) == Some(header)
            &&& parts_of::<P>(part_lines(bytes)) == kept::<P>(head, MAX_PACKET_SIZE as nat, parts)
        }),
{
    let head = H::wire(header)->0.push(NEWLINE);
    let accepted = kept::<P>(head, MAX_PACKET_SIZE as nat, parts);
    lemma_packed_kept::<P>(head, MAX_PACKET_SIZE as nat, parts);
    lemma_packed_all::<P>(head, MAX_PACKET_SIZE as nat, accepted);
    lemma_packet_round_trip::<H, P>(header, accepted);
}

/// The line of an update is a line of UTF-8, and is read as that update.
pub proof fn lemma_update_line<Id: MessagePart, Entity: MessagePart>(id: Id::V, entity: Entity::V)
    requires
        faithful::<Id>(),
        faithful::<Entity>(),
        <Record<Id, Entity> as MessagePart>::wire(Record::Update(id, entity)) is Some,
    ensures
        ({
            let line = <Record<Id, Entity> as MessagePart>::wire(Record::Update(id, entity))->0;
            &&& line.len() > 0
            &&& !line.contains(NEWLINE)
            &&& valid_utf8(line)
            &&& <Record<Id, Entity> as MessagePart>::parse(line) == Some(
                Record::<Id::V, Entity::V>::Update(id, entity),
            )
        }),
{
    let a = Id::wire(id)->0;
    let b = Entity::wire(entity)->0;
    let word = update_word();
    let line = update_line(a, b);
    assert(Id::wire(id) is Some && Entity::wire(entity) is Some);
    assert(line =~= word + seq![SPACE] + a + seq![SPACE] + b);
    assert(line.len() == 6 + 1 + a.len() + 1 + b.len());
    assert forall|i: int| 0 <= i < line.len() implies line[i] != NEWLINE by {
        if i < 6 {
            assert(line[i] == word[i]);
        } else if i == 6 {
        } else if i < 7 + a.len() {
            assert(line[i] == a[i - 7]);
            assert(a.contains(a[i - 7]));
        } else if i == 7 + a.len() {
        } else {
            assert(line[i] == b[i - 8 - a.len()]);
            assert(b.contains(b[i - 8 - a.len()]));
        }
    }
    let front = word.push(SPACE);
    assert forall|i: int| 0 <= i < front.len() implies #[trigger] front[i] < 0x80 by {
        if i < 6 {
            assert(front[i] == word[i]);
        }
    }
    lemma_ascii_is_utf8(front);
    let gap = seq![SPACE];
    assert(gap[0] < 0x80);
    lemma_ascii_is_utf8(gap);
    valid_utf8_concat(front, a);
    valid_utf8_concat(front + a, gap);
    valid_utf8_concat(front + a + gap, b);
    assert(line =~= front + a + gap + b);

    assert forall|i: int| 0 <= i < 6 implies line[i] != SPACE by {
        assert(line[i] == word[i]);
    }
    lemma_find_byte_at(line, SPACE, 6);
    assert(line.take(6) =~= word);
    let rest = line.skip(7);
    assert(rest =~= a.push(SPACE) + b);
    assert forall|i: int| 0 <= i < a.len() implies rest[i] != SPACE by {
        assert(rest[i] == a[i]);
        assert(a.contains(a[i]));
    }
    lemma_find_byte_at(rest, SPACE, a.len() as int);
    assert(rest.take(a.len() as int) =~= a);
    assert(rest.skip(a.len() as int + 1) =~= b);
}

/// The line of a destroy is a line of UTF-8, and is read as that destroy.
pub proof fn lemma_destroy_line<Id: MessagePart, Entity: MessagePart>(id: Id::V)
    requires
        faithful::<Id>(),
        <Record<Id, Entity> as MessagePart>::wire(Record::Destroy(id)) is Some,
    ensures
        ({
            let line = <Record<Id, Entity> as MessagePart>::wire(Record::Destroy(id))->0;
            &&& line.len() > 0
            &&& !line.contains(NEWLINE)
            &&& valid_utf8(line)
            &&& <Record<Id, Entity> as MessagePart>::parse(line) == Some(
                Record::<Id::V, Entity::V>::Destroy(id),
            )
        }),
{
    let a = Id::wire(id)->0;
    let word = destroy_word();
    let line = destroy_line(a);
    assert(Id::wire(id) is Some);
    assert(line =~= word + seq![SPACE] + a);
    assert forall|i: int| 0 <= i < line.len() implies line[i] != NEWLINE by {
        if i < 7 {
            assert(line[i] == word[i]);
        } else if i == 7 {
        } else {
            assert(line[i] == a[i - 8]);
            assert(a.contains(a[i - 8]));
        }
    }
    let front = word.push(SPACE);
    assert forall|i: int| 0 <= i < front.len() implies #[trigger] front[i] < 0x80 by {
        if i < 7 {
            assert(front[i] == word[i]);
        }
    }
    lemma_ascii_is_utf8(front);
    valid_utf8_concat(front, a);
    assert(line =~= front + a);
    assert forall|i: int| 0 <= i < 7 implies line[i] != SPACE by {
        assert(line[i] == word[i]);
    }
    lemma_find_byte_at(line, SPACE, 7);
    assert(line.take(7) =~= word);
    assert(word.len() != update_word().len());
    assert(line.skip(8) =~= a);
}

/// Records of faithful ids and entities are faithful parts.
pub proof fn lemma_record_faithful<Id: MessagePart, Entity: MessagePart>()
    requires
        faithful::<Id>(),
        faithful::<Entity>(),
    ensures
        faithful::<Record<Id, Entity>>(),
{
    assert forall|value: Record<Id::V, Entity::V>| #[trigger]
        <Record<Id, Entity> as MessagePart>::wire(value) is Some implies {
        let bytes = <Record<Id, Entity> as MessagePart>::wire(value)->0;
        &&& bytes.len() > 0
        &&& !bytes.contains(NEWLINE)
        &&& valid_utf8(bytes)
        &&& <Record<Id, Entity> as MessagePart>::parse(bytes) == Some(value)
    } by {
        match value {
            Record::Update(id, entity) => {
                lemma_update_line::<Id, Entity>(id, entity);
            },
            Record::Destroy(id) => {
                lemma_destroy_line::<Id, Entity>(id);
            },
        }
    }
}

/// The updates and the destroyed ids of a message are found again among its
/// records.
pub proof fn lemma_records_split<Id, Entity>(update: Seq<(Id, Entity)>, destroy: Seq<Id>)
    ensures
        updates_in(records_of(update, destroy)) == update,
        destroys_in(records_of(update, destroy)) == destroy,
    decreases destroy.len(), update.len(),
{
    let records = records_of(update, destroy);
    if destroy.len() > 0 {
        let fewer = destroy.drop_last();
        assert(records.drop_last() =~= records_of(update, fewer));
        assert(records.last() == Record::<Id, Entity>::Destroy(destroy.last()));
        lemma_records_split(update, fewer);
        assert(destroys_in(records) =~= destroy);
    } else if update.len() > 0 {
        let fewer = update.drop_last();
        assert(records.drop_last() =~= records_of(fewer, destroy));
        assert(records.last() == Record::<Id, Entity>::Update(update.last().0, update.last().1));
        lemma_records_split(fewer, destroy);
        assert(updates_in(records) =~= update);
        assert(destroys_in(records) =~= destroy);
    } else {
        assert(records =~= Seq::<Record<Id, Entity>>::empty());
        assert(updates_in(records) =~= update);
        assert(destroys_in(records) =~= destroy);
    }
}

/// A message is within the limits of one packet: its header and each of its
/// records has a serialised form, and their lines together are no longer than
/// a packet.
pub open spec fn within_limits<Header: MessagePart, Id: MessagePart, Entity: MessagePart>(
    message: MessageView<Header::V, Id::V, Entity::V>,
) -> bool {
    &&& Header::wire(message.header) is Some
    &&& fits::<Record<Id, Entity>>(
        Header::wire(message.header)->0.push(NEWLINE),
        MAX_PACKET_SIZE as nat,
        records_of(message.update, message.destroy),
    )
}

/// A message reads back: the packet that `Message::encode` makes of a message
/// within the limits is one that `Message::decode` accepts, and what it reads
/// from it is the message, with the same header, the same updates in the same
/// order and the same destroyed ids in the same order.
pub proof fn lemma_message_round_trip<Header: MessagePart, Id: MessagePart, Entity: MessagePart>(
    message: MessageView<Header::V, Id::V, Entity::V>,
)
    requires
        faithful::<Header>(),
        faithful::<Id>(),
        faithful::<Entity>(),
        within_limits::<Header, Id, Entity>(message),
    ensures
        ({
            let bytes = packed::<Record<Id, Entity>>(
                Header::wire(message.header)->0.push(NEWLINE),
                MAX_PACKET_SIZE as nat,
                records_of(message.update, message.destroy),
            );
            &&& well_formed_packet::<Header, Record<Id, Entity>>(bytes)
            &&& (MessageView {
                header: Header::parse(header_line(bytes))->0,
                update: updates_in(parts_of::<Record<Id, Entity>>(part_lines(bytes))),
                destroy: destroys_in(parts_of::<Record<Id, Entity>>(part_lines(bytes))),
            }) == message
        }),
{
    lemma_record_faithful::<Id, Entity>();
    lemma_packet_round_trip::<Header, Record<Id, Entity>>(
        message.header,
        records_of(message.update, message.destroy),
    );
    lemma_records_split(message.update, message.destroy);
}

} // verus!
