//! What is signed, authenticated and hashed about deliveries.
use vstd::prelude::*;
use crate::bytes::to_array;
use crate::crypto::{digest, sha256};
use crate::delivery::MAX_PAYLOAD;
use crate::ids::{MessageId, RoomId, UserId};
use crate::protocol::{big_endian, big_endian_injective, big_endian_len, encode_message, put_big_endian};
use crate::requests::{Request, RequestView};
use crate::varint::WireError;
use crate::wire::Wire;

verus! {

/// The text `GROTTO-EVENT-V9` and a zero byte.
pub open spec fn event_domain() -> Seq<u8> {
    seq![71u8, 82, 79, 84, 84, 79, 45, 69, 86, 69, 78, 84, 45, 86, 57, 0]
}

/// The text `GROTTO-WELCOME-V9` and a zero byte.
pub open spec fn welcome_domain() -> Seq<u8> {
    seq![71u8, 82, 79, 84, 84, 79, 45, 87, 69, 76, 67, 79, 77, 69, 45, 86, 57, 0]
}

/// The text `GROTTO-RECEIPT-V9` and a zero byte.
pub open spec fn receipt_domain() -> Seq<u8> {
    seq![71u8, 82, 79, 84, 84, 79, 45, 82, 69, 67, 69, 73, 80, 84, 45, 86, 57, 0]
}

/// What a group message authenticates: its room, its identifier and the head
/// that it extends.
pub open spec fn event_data(room: RoomId, event: MessageId, parent: u64) -> Seq<u8> {
    event_domain() + room@ + event@ + big_endian(parent as nat, 8)
}

pub fn event_authenticated_data(room: RoomId, event: MessageId, parent: u64) -> (data: Vec<u8>)
    ensures
        data@ == event_data(room, event, parent),
{
    let domain: [u8; 16] = [71, 82, 79, 84, 84, 79, 45, 69, 86, 69, 78, 84, 45, 86, 57, 0];
    let mut data: Vec<u8> = Vec::new();
    data.extend_from_slice(domain.as_slice());
    assert(data@ =~= event_domain());
    room.put(&mut data);
    event.put(&mut data);
    put_big_endian(parent, &mut data);
    data
}

proof fn pow_256_8()
    ensures
        vstd::arithmetic::power::pow(256, 8) == 0x1_0000_0000_0000_0000,
{
    reveal_with_fuel(vstd::arithmetic::power::pow, 9);
}

/// The data names its room, event and parent: two that are equal have all three
/// equal.
pub proof fn event_data_binds(
    room: RoomId,
    event: MessageId,
    parent: u64,
    room2: RoomId,
    event2: MessageId,
    parent2: u64,
)
    requires
        event_data(room, event, parent) == event_data(room2, event2, parent2),
    ensures
        room == room2,
        event == event2,
        parent == parent2,
{
    let a = event_data(room, event, parent);
    let b = event_data(room2, event2, parent2);
    room.determined_by_bytes();
    room2.determined_by_bytes();
    event.determined_by_bytes();
    event2.determined_by_bytes();
    big_endian_len(parent as nat, 8);
    big_endian_len(parent2 as nat, 8);
    assert(a.subrange(16, 32) =~= room@);
    assert(b.subrange(16, 32) =~= room2@);
    assert(a.subrange(32, 48) =~= event@);
    assert(b.subrange(32, 48) =~= event2@);
    assert(a.subrange(48, 56) =~= big_endian(parent as nat, 8));
    assert(b.subrange(48, 56) =~= big_endian(parent2 as nat, 8));
    pow_256_8();
    big_endian_injective(parent as nat, parent2 as nat, 8);
}

/// What an inviter signs about a welcome.
pub open spec fn welcome_data(
    recipient: UserId,
    room: RoomId,
    event: MessageId,
    sequence: u64,
    body: Seq<u8>,
) -> Seq<u8> {
    welcome_domain() + recipient@ + room@ + event@ + big_endian(sequence as nat, 8) + sha256(body)
}

pub fn welcome_transcript(
    recipient: UserId,
    room: RoomId,
    event: MessageId,
    sequence: u64,
    body: &[u8],
) -> (transcript: Vec<u8>)
    ensures
        transcript@ == welcome_data(recipient, room, event, sequence, body@),
{
    let domain: [u8; 18] = [71, 82, 79, 84, 84, 79, 45, 87, 69, 76, 67, 79, 77, 69, 45, 86, 57, 0];
    let mut transcript: Vec<u8> = Vec::new();
    transcript.extend_from_slice(domain.as_slice());
    assert(transcript@ =~= welcome_domain());
    recipient.put(&mut transcript);
    room.put(&mut transcript);
    event.put(&mut transcript);
    put_big_endian(sequence, &mut transcript);
    let hash = digest(body);
    transcript.extend_from_slice(hash.as_slice());
    transcript
}

/// The transcript names its recipient, room, event, position and the digest of
/// its body: two that are equal have all five equal.
pub proof fn welcome_transcript_binds(
    recipient: UserId,
    room: RoomId,
    event: MessageId,
    sequence: u64,
    body: Seq<u8>,
    recipient2: UserId,
    room2: RoomId,
    event2: MessageId,
    sequence2: u64,
    body2: Seq<u8>,
)
    requires
        welcome_data(recipient, room, event, sequence, body) == welcome_data(
            recipient2,
            room2,
            event2,
            sequence2,
            body2,
        ),
    ensures
        recipient == recipient2,
        room == room2,
        event == event2,
        sequence == sequence2,
        sha256(body) == sha256(body2),
{
    let a = welcome_data(recipient, room, event, sequence, body);
    let b = welcome_data(recipient2, room2, event2, sequence2, body2);
    recipient.determined_by_bytes();
    recipient2.determined_by_bytes();
    room.determined_by_bytes();
    room2.determined_by_bytes();
    event.determined_by_bytes();
    event2.determined_by_bytes();
    big_endian_len(sequence as nat, 8);
    big_endian_len(sequence2 as nat, 8);
    assert(a.subrange(18, 34) =~= recipient@);
    assert(b.subrange(18, 34) =~= recipient2@);
    assert(a.subrange(34, 50) =~= room@);
    assert(b.subrange(34, 50) =~= room2@);
    assert(a.subrange(50, 66) =~= event@);
    assert(b.subrange(50, 66) =~= event2@);
    assert(a.subrange(66, 74) =~= big_endian(sequence as nat, 8));
    assert(b.subrange(66, 74) =~= big_endian(sequence2 as nat, 8));
    assert(a.skip(74) =~= sha256(body));
    assert(b.skip(74) =~= sha256(body2));
    pow_256_8();
    big_endian_injective(sequence as nat, sequence2 as nat, 8);
}

/// The hash that tells requests apart.
pub open spec fn request_hash(request: RequestView) -> Seq<u8> {
    sha256(Request::encoded(request))
}

pub fn payload_hash(request: &Request) -> (result: Result<[u8; 32], WireError>)
    ensures
        match result {
            Ok(hash) => hash@ == request_hash(request.deep_view()) && Request::encoded(
                request.deep_view(),
            ).len() <= MAX_PAYLOAD,
            Err(error) => error == WireError::BufferFull && Request::encoded(
                request.deep_view(),
            ).len() > MAX_PAYLOAD,
        },
{
    match encode_message(request) {
        Ok(bytes) => Ok(digest(bytes.as_slice())),
        Err(error) => Err(error),
    }
}

/// The identifiers, one after the other.
pub open spec fn ids_bytes(ids: Seq<MessageId>) -> Seq<u8>
    decreases ids.len(),
{
    if ids.len() == 0 {
        Seq::empty()
    } else {
        ids_bytes(ids.drop_last()) + ids.last()@
    }
}

/// The cursors in eight bytes each, one after the other.
pub open spec fn cursors_bytes(cursors: Seq<u64>) -> Seq<u8>
    decreases cursors.len(),
{
    if cursors.len() == 0 {
        Seq::empty()
    } else {
        cursors_bytes(cursors.drop_last()) + big_endian(cursors.last() as nat, 8)
    }
}

/// What the identifier of a receipt is the digest of.
pub open spec fn receipt_data(user: UserId, events: Seq<MessageId>, welcomes: Seq<u64>) -> Seq<u8> {
    receipt_domain() + user@ + big_endian(events.len(), 8) + ids_bytes(events) + big_endian(
        welcomes.len(),
        8,
    ) + cursors_bytes(welcomes)
}

/// The one identifier that a receipt can have.
pub open spec fn receipt_id(user: UserId, events: Seq<MessageId>, welcomes: Seq<u64>) -> MessageId {
    MessageId::of(sha256(receipt_data(user, events, welcomes)).take(16))
}

/// The identifier of a receipt: the first half of a digest of what it confirms,
/// so that the same receipt never comes under two identifiers.
pub fn acknowledgement_id(user: UserId, events: &[MessageId], welcomes: &[u64]) -> (id: MessageId)
    ensures
        id == receipt_id(user, events@, welcomes@),
{
    let domain: [u8; 18] = [71, 82, 79, 84, 84, 79, 45, 82, 69, 67, 69, 73, 80, 84, 45, 86, 57, 0];
    let mut data: Vec<u8> = Vec::new();
    data.extend_from_slice(domain.as_slice());
    assert(data@ =~= receipt_domain());
    user.put(&mut data);
    put_big_endian(events.len() as u64, &mut data);
    let ghost start = data@;
    let mut at: usize = 0;
    assert(events@.take(0) =~= Seq::<MessageId>::empty());
    assert(start + ids_bytes(events@.take(0)) =~= start);
    while at < events.len()
        invariant
            at <= events@.len(),
            data@ == start + ids_bytes(events@.take(at as int)),
        decreases events.len() - at,
    {
        let ghost before = data@;
        events[at].put(&mut data);
        proof {
            let next = events@.take(at + 1);
            assert(next.drop_last() =~= events@.take(at as int));
            assert(data@ =~= start + (ids_bytes(events@.take(at as int)) + events@[at as int]@));
        }
        at += 1;
    }
    assert(events@.take(at as int) =~= events@);
    put_big_endian(welcomes.len() as u64, &mut data);
    let ghost middle = data@;
    let mut index: usize = 0;
    assert(welcomes@.take(0) =~= Seq::<u64>::empty());
    assert(middle + cursors_bytes(welcomes@.take(0)) =~= middle);
    while index < welcomes.len()
        invariant
            index <= welcomes@.len(),
            data@ == middle + cursors_bytes(welcomes@.take(index as int)),
        decreases welcomes.len() - index,
    {
        put_big_endian(welcomes[index], &mut data);
        proof {
            let next = welcomes@.take(index + 1);
            assert(next.drop_last() =~= welcomes@.take(index as int));
            assert(data@ =~= middle + (cursors_bytes(welcomes@.take(index as int)) + big_endian(
                welcomes@[index as int] as nat,
                8,
            )));
        }
        index += 1;
    }
    assert(welcomes@.take(index as int) =~= welcomes@);
    let hash = digest(data.as_slice());
    let (half, _) = hash.as_slice().split_at(16);
    assert(half@ =~= sha256(receipt_data(user, events@, welcomes@)).take(16));
    MessageId::from_bytes(to_array::<16>(half))
}

} // verus!
