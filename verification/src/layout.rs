//! How records stand in bytes, field by field.
use vstd::prelude::*;
use vstd::utf8::encode_utf8;
use crate::collections::{items_encoded, list_encoded, Name};
use crate::delivery::{
    Append, AppendView, Event, EventView, MlsContentType, RoomHead, RoomHeadView, WelcomeAttachment,
    WelcomeAttachmentView, WelcomeDelivery, WelcomeDeliveryView,
};
use crate::ids::{MessageId, RoomId};
use crate::messages::{
    ClientMessage, ClientMessageKind, ClientMessageView, ProtocolError, RelayMessage,
    RelayMessageView,
};
use crate::protocol::{decoded, decoded_is_bounded, message_round_trip, DecodeMessageError};
use crate::requests::{Rejection, Request, RequestView, Response, ResponseView};
use crate::sizes::bytes_encoded;
use crate::varint::varint;
use crate::wire::Wire;

verus! {

/// A number: seven bits a byte, the smallest part first, with the eighth bit set in every
/// byte but the last.
pub open spec fn number(value: nat) -> Seq<u8>
    decreases value,
{
    if value < 128 {
        seq![value as u8]
    } else {
        seq![(128 + value % 128) as u8] + number(value / 128)
    }
}

/// Bytes of any length, behind their length.
pub open spec fn blob(bytes: Seq<u8>) -> Seq<u8> {
    number(bytes.len()) + bytes
}

/// A text in UTF-8, behind its length in bytes.
pub open spec fn text(chars: Seq<char>) -> Seq<u8> {
    blob(encode_utf8(chars))
}

/// A list: its length and its items.
pub open spec fn list(items: Seq<Seq<u8>>) -> Seq<u8> {
    number(items.len()) + items.flatten()
}

/// What may be missing: a zero, or a one and what is there.
pub open spec fn perhaps(inner: Option<Seq<u8>>) -> Seq<u8> {
    match inner {
        Some(bytes) => seq![1u8] + bytes,
        None => seq![0u8],
    }
}

/// A yes or a no.
pub open spec fn flag(yes: bool) -> Seq<u8> {
    seq![if yes {
        1u8
    } else {
        0u8
    }]
}

/// A welcome as it is attached: recipient, body, signature.
pub open spec fn attachment(value: WelcomeAttachmentView) -> Seq<u8> {
    value.recipient@ + blob(value.body) + value.signature@
}

/// An operation: room, parent, epoch, kind, body and perhaps a welcome.
pub open spec fn operation(value: AppendView) -> Seq<u8> {
    value.room@ + number(value.parent as nat) + number(value.epoch as nat) + seq![
        match value.content_type {
            MlsContentType::Application => 0u8,
            MlsContentType::Proposal => 1u8,
            MlsContentType::Commit => 2u8,
        },
    ] + blob(value.body) + perhaps(
        match value.welcome {
            Some(welcome) => Some(attachment(welcome)),
            None => None,
        },
    )
}

/// An event: identifier, sender, operation.
pub open spec fn event(value: EventView) -> Seq<u8> {
    value.id@ + value.sender@ + operation(value.operation)
}

/// A welcome on its way: name, cursor, event, room, position, inviter, attachment.
pub open spec fn welcome(value: WelcomeDeliveryView) -> Seq<u8> {
    text(value.room_name) + number(value.cursor as nat) + value.event@ + value.room@ + number(
        value.sequence as nat,
    ) + value.inviter@ + attachment(value.attachment)
}

/// A room of the index: room, name, head.
pub open spec fn head(value: RoomHeadView) -> Seq<u8> {
    value.room@ + text(value.name) + number(value.sequence as nat)
}

proof fn number_is_varint(value: nat)
    ensures
        varint(value) == number(value),
    decreases value,
{
    if value >= 128 {
        number_is_varint(value / 128);
    }
}

proof fn body_is_blob(bytes: Seq<u8>)
    ensures
        list_encoded::<u8>(bytes) == blob(bytes),
{
    bytes_encoded(bytes);
    number_is_varint(bytes.len());
}

proof fn items_are_joined<T: Wire>(items: Seq<T::V>)
    ensures
        list_encoded::<T>(items) == list(items.map_values(|item: T::V| T::encoded(item))),
{
    flattened::<T>(items);
    number_is_varint(items.len());
}

proof fn flattened<T: Wire>(items: Seq<T::V>)
    ensures
        items_encoded::<T>(items) == items.map_values(|item: T::V| T::encoded(item)).flatten(),
    decreases items.len(),
{
    let parts = items.map_values(|item: T::V| T::encoded(item));
    if items.len() > 0 {
        flattened::<T>(items.skip(1));
        assert(parts.drop_first() =~= items.skip(1).map_values(|item: T::V| T::encoded(item)));
    }
}

/// The records of the delivery stand in bytes as they are laid out.
pub proof fn laying_out_records(
    one: AppendView,
    two: EventView,
    three: WelcomeDeliveryView,
    four: RoomHeadView,
    five: WelcomeAttachmentView,
)
    ensures
        WelcomeAttachment::encoded(five) == attachment(five),
        Append::encoded(one) == operation(one),
        Event::encoded(two) == event(two),
        WelcomeDelivery::encoded(three) == welcome(three),
        RoomHead::encoded(four) == head(four),
{
    attachment_laid_out(five);
    operation_laid_out(one);
    operation_laid_out(two.operation);
    assert(Event::encoded(two) =~= event(two));
    attachment_laid_out(three.attachment);
    name_laid_out(three.room_name);
    number_is_varint(three.cursor as nat);
    number_is_varint(three.sequence as nat);
    assert(WelcomeDelivery::encoded(three) =~= welcome(three));
    name_laid_out(four.name);
    number_is_varint(four.sequence as nat);
    assert(RoomHead::encoded(four) =~= head(four));
}

proof fn name_laid_out(name: Seq<char>)
    ensures
        Name::encoded(name) == text(name),
{
    number_is_varint(encode_utf8(name).len());
}

proof fn attachment_laid_out(value: WelcomeAttachmentView)
    ensures
        WelcomeAttachment::encoded(value) == attachment(value),
{
    body_is_blob(value.body);
    assert(WelcomeAttachment::encoded(value) =~= attachment(value));
}

proof fn operation_laid_out(value: AppendView)
    ensures
        Append::encoded(value) == operation(value),
{
    number_is_varint(value.parent as nat);
    number_is_varint(value.epoch as nat);
    body_is_blob(value.body);
    if let Some(welcome) = value.welcome {
        attachment_laid_out(welcome);
    }
    assert(Append::encoded(value) =~= operation(value));
}

/// Requests stand in bytes as a number of their own and their fields.
pub proof fn laying_out_requests(request: RequestView)
    ensures
        Request::encoded(request) == match request {
            RequestView::CreateRoom { name } => seq![0u8] + text(name),
            RequestView::PublishKeyPackages { packages } => seq![1u8] + list(
                packages.map_values(|package: Seq<u8>| blob(package)),
            ),
            RequestView::Acknowledge { events, welcomes } => seq![2u8] + list(
                events.map_values(|id: MessageId| id@),
            ) + list(welcomes.map_values(|cursor: u64| number(cursor as nat))),
            RequestView::AppendRoomOperation(appended) => seq![3u8] + operation(appended),
            RequestView::FetchRoomEvents { room, after_sequence } => seq![4u8] + room@ + number(
                after_sequence as nat,
            ),
            RequestView::SyncIndex { after_room } => seq![5u8] + perhaps(
                match after_room {
                    Some(room) => Some(room@),
                    None => None,
                },
            ),
            RequestView::FetchWelcomes { after_cursor } => seq![6u8] + number(after_cursor as nat),
            RequestView::ReserveKeyPackage { recipient } => seq![7u8] + recipient@,
            RequestView::SetFetchGrant { requester, allowed } => seq![8u8] + requester@ + flag(
                allowed,
            ),
        },
{
    match request {
        RequestView::CreateRoom { name } => {
            name_laid_out(name);
        },
        RequestView::PublishKeyPackages { packages } => {
            packages_laid_out(packages);
        },
        RequestView::Acknowledge { events, welcomes } => {
            items_are_joined::<MessageId>(events);
            items_are_joined::<u64>(welcomes);
            assert(events.map_values(|item: MessageId| MessageId::encoded(item))
                =~= events.map_values(|id: MessageId| id@));
            assert forall|i: int| 0 <= i < welcomes.len() implies u64::encoded(
                #[trigger] welcomes[i],
            ) == number(welcomes[i] as nat) by {
                number_is_varint(welcomes[i] as nat);
            }
            assert(welcomes.map_values(|item: u64| u64::encoded(item)) =~= welcomes.map_values(
                |cursor: u64| number(cursor as nat),
            ));
            assert(Request::encoded(request) =~= seq![2u8] + list(
                events.map_values(|id: MessageId| id@),
            ) + list(welcomes.map_values(|cursor: u64| number(cursor as nat))));
        },
        RequestView::AppendRoomOperation(appended) => {
            operation_laid_out(appended);
        },
        RequestView::FetchRoomEvents { room, after_sequence } => {
            number_is_varint(after_sequence as nat);
            assert(Request::encoded(request) =~= seq![4u8] + room@ + number(after_sequence as nat));
        },
        RequestView::FetchWelcomes { after_cursor } => {
            number_is_varint(after_cursor as nat);
        },
        RequestView::SetFetchGrant { requester, allowed } => {
            assert(Request::encoded(request) =~= seq![8u8] + requester@ + flag(allowed));
        },
        _ => {},
    }
}

proof fn packages_laid_out(packages: Seq<Seq<u8>>)
    ensures
        Request::encoded(RequestView::PublishKeyPackages { packages }) == seq![1u8] + list(
            packages.map_values(|package: Seq<u8>| blob(package)),
        ),
{
    items_are_joined::<crate::collections::Limited<u8, 16384>>(packages);
    assert forall|i: int| 0 <= i < packages.len() implies list_encoded::<u8>(
        #[trigger] packages[i],
    ) == blob(packages[i]) by {
        body_is_blob(packages[i]);
    }
    assert(packages.map_values(
        |item: Seq<u8>| crate::collections::Limited::<u8, 16384>::encoded(item),
    ) =~= packages.map_values(|package: Seq<u8>| blob(package)));
}

/// Answers stand in bytes as a number of their own and their fields.
pub proof fn laying_out_answers(response: ResponseView)
    ensures
        match response {
            ResponseView::RoomCreated { room } => Response::encoded(response) == seq![0u8] + room@,
            ResponseView::KeyPackagesPublished { count } => Response::encoded(response) == seq![1u8]
                + number(count as nat),
            ResponseView::Acknowledged => Response::encoded(response) == seq![2u8],
            ResponseView::AppendAccepted { event: accepted } => Response::encoded(response)
                == seq![3u8] + event(accepted),
            ResponseView::HeadConflict { room, head: newest } => Response::encoded(response)
                == seq![4u8] + room@ + number(newest as nat),
            ResponseView::RoomEvents { room, after_sequence, events, more } => Response::encoded(
                response,
            ) == seq![5u8] + room@ + number(after_sequence as nat) + list(
                events.map_values(|value: EventView| event(value)),
            ) + flag(more),
            ResponseView::SyncIndex { rooms, more } => Response::encoded(response) == seq![6u8]
                + list(rooms.map_values(|value: RoomHeadView| head(value))) + flag(more),
            ResponseView::Welcomes { after_cursor, welcomes, more } => Response::encoded(response)
                == seq![7u8] + number(after_cursor as nat) + list(
                welcomes.map_values(|value: WelcomeDeliveryView| welcome(value)),
            ) + flag(more),
            ResponseView::KeyPackage { recipient, package } => Response::encoded(response)
                == seq![8u8] + recipient@ + blob(package),
            ResponseView::FetchGrantSet => Response::encoded(response) == seq![9u8],
            ResponseView::Rejected(reason) => Response::encoded(response) == seq![
                10u8,
                match reason {
                    Rejection::Invalid => 0u8,
                    Rejection::Unauthorized => 1u8,
                    Rejection::NotFound => 2u8,
                    Rejection::RequestConflict => 3u8,
                    Rejection::Overloaded => 4u8,
                    Rejection::Quota => 5u8,
                    Rejection::Internal => 6u8,
                },
            ],
        },
{
    match response {
        ResponseView::KeyPackagesPublished { count } => {
            number_is_varint(count as nat);
        },
        ResponseView::AppendAccepted { event: accepted } => {
            operation_laid_out(accepted.operation);
            assert(Event::encoded(accepted) =~= event(accepted));
        },
        ResponseView::HeadConflict { room, head: newest } => {
            number_is_varint(newest as nat);
            assert(Response::encoded(response) =~= seq![4u8] + room@ + number(newest as nat));
        },
        ResponseView::RoomEvents { room, after_sequence, events, more } => {
            events_laid_out(room, after_sequence, events, more);
        },
        ResponseView::SyncIndex { rooms, more } => {
            heads_laid_out(rooms, more);
        },
        ResponseView::Welcomes { after_cursor, welcomes, more } => {
            welcomes_laid_out(after_cursor, welcomes, more);
        },
        ResponseView::KeyPackage { recipient, package } => {
            body_is_blob(package);
            assert(Response::encoded(response) =~= seq![8u8] + recipient@ + blob(package));
        },
        ResponseView::Rejected(reason) => {
            assert(Response::encoded(response) =~= seq![
                10u8,
                match reason {
                    Rejection::Invalid => 0u8,
                    Rejection::Unauthorized => 1u8,
                    Rejection::NotFound => 2u8,
                    Rejection::RequestConflict => 3u8,
                    Rejection::Overloaded => 4u8,
                    Rejection::Quota => 5u8,
                    Rejection::Internal => 6u8,
                },
            ]);
        },
        _ => {},
    }
}

proof fn events_laid_out(room: RoomId, after_sequence: u64, events: Seq<EventView>, more: bool)
    ensures
        Response::encoded(ResponseView::RoomEvents { room, after_sequence, events, more })
            == seq![5u8] + room@ + number(after_sequence as nat) + list(
            events.map_values(|value: EventView| event(value)),
        ) + flag(more),
{
    number_is_varint(after_sequence as nat);
    items_are_joined::<Event>(events);
    assert forall|i: int| 0 <= i < events.len() implies Event::encoded(#[trigger] events[i])
        == event(events[i]) by {
        operation_laid_out(events[i].operation);
        assert(Event::encoded(events[i]) =~= event(events[i]));
    }
    assert(events.map_values(|item: EventView| Event::encoded(item)) =~= events.map_values(
        |value: EventView| event(value),
    ));
    assert(Response::encoded(ResponseView::RoomEvents { room, after_sequence, events, more })
        =~= seq![5u8] + room@ + number(after_sequence as nat) + list(
        events.map_values(|value: EventView| event(value)),
    ) + flag(more));
}

proof fn heads_laid_out(rooms: Seq<RoomHeadView>, more: bool)
    ensures
        Response::encoded(ResponseView::SyncIndex { rooms, more }) == seq![6u8] + list(
            rooms.map_values(|value: RoomHeadView| head(value)),
        ) + flag(more),
{
    items_are_joined::<RoomHead>(rooms);
    assert forall|i: int| 0 <= i < rooms.len() implies RoomHead::encoded(#[trigger] rooms[i])
        == head(rooms[i]) by {
        name_laid_out(rooms[i].name);
        number_is_varint(rooms[i].sequence as nat);
        assert(RoomHead::encoded(rooms[i]) =~= head(rooms[i]));
    }
    assert(rooms.map_values(|item: RoomHeadView| RoomHead::encoded(item)) =~= rooms.map_values(
        |value: RoomHeadView| head(value),
    ));
    assert(Response::encoded(ResponseView::SyncIndex { rooms, more }) =~= seq![6u8] + list(
        rooms.map_values(|value: RoomHeadView| head(value)),
    ) + flag(more));
}

proof fn welcomes_laid_out(after_cursor: u64, welcomes: Seq<WelcomeDeliveryView>, more: bool)
    ensures
        Response::encoded(ResponseView::Welcomes { after_cursor, welcomes, more }) == seq![7u8]
            + number(after_cursor as nat) + list(
            welcomes.map_values(|value: WelcomeDeliveryView| welcome(value)),
        ) + flag(more),
{
    number_is_varint(after_cursor as nat);
    items_are_joined::<WelcomeDelivery>(welcomes);
    assert forall|i: int| 0 <= i < welcomes.len() implies WelcomeDelivery::encoded(
        #[trigger] welcomes[i],
    ) == welcome(welcomes[i]) by {
        attachment_laid_out(welcomes[i].attachment);
        name_laid_out(welcomes[i].room_name);
        number_is_varint(welcomes[i].cursor as nat);
        number_is_varint(welcomes[i].sequence as nat);
        assert(WelcomeDelivery::encoded(welcomes[i]) =~= welcome(welcomes[i]));
    }
    assert(welcomes.map_values(|item: WelcomeDeliveryView| WelcomeDelivery::encoded(item))
        =~= welcomes.map_values(|value: WelcomeDeliveryView| welcome(value)));
    assert(Response::encoded(ResponseView::Welcomes { after_cursor, welcomes, more }) =~= seq![7u8]
        + number(after_cursor as nat) + list(
        welcomes.map_values(|value: WelcomeDeliveryView| welcome(value)),
    ) + flag(more));
}

/// The number of a kind of message.
pub open spec fn kind_number(kind: ClientMessageKind) -> u8 {
    match kind {
        ClientMessageKind::ClientHello => 1,
        ClientMessageKind::ClientIdentify => 102,
        ClientMessageKind::ClientAuthenticationResponse => 3,
        ClientMessageKind::Delivery => 100,
    }
}

/// What goes wrong in a conversation, in bytes.
pub open spec fn fault(error: ProtocolError) -> Seq<u8> {
    match error {
        ProtocolError::UnsupportedVersion { supported, received } => seq![1u8] + number(
            supported as nat,
        ) + number(received as nat),
        ProtocolError::UnexpectedMessage { expected, received } => seq![
            2u8,
            kind_number(expected),
            kind_number(received),
        ],
        ProtocolError::InvalidPublicKey => seq![3u8],
        ProtocolError::IdentityKeyConflict => seq![4u8],
        ProtocolError::AuthenticationFailed => seq![5u8],
    }
}

/// What clients and relays say to each other stands in bytes as a number of its own and its
/// fields.
pub proof fn laying_out_messages(said: ClientMessageView, heard: RelayMessageView)
    ensures
        ClientMessage::encoded(said) == match said {
            ClientMessageView::ClientHello { version } => seq![1u8] + number(version as nat),
            ClientMessageView::ClientIdentify { user_id, public_key, enrollment } => seq![102u8]
                + user_id@ + public_key@ + perhaps(enrollment),
            ClientMessageView::ClientAuthenticationResponse { signature } => seq![3u8] + signature@,
            ClientMessageView::Delivery { request_id, request } => seq![100u8] + request_id@
                + Request::encoded(request),
        },
        RelayMessage::encoded(heard) == match heard {
            RelayMessageView::ServerHello { version } => seq![1u8] + number(version as nat),
            RelayMessageView::ServerIdentifyAccepted { user_id } => seq![2u8] + user_id@,
            RelayMessageView::ServerAuthenticationChallenge { challenge } => seq![3u8] + challenge@,
            RelayMessageView::ProtocolError { request_id, error } => seq![4u8] + perhaps(
                match request_id {
                    Some(id) => Some(id@),
                    None => None,
                },
            ) + fault(error),
            RelayMessageView::Delivery { request_id, response } => seq![100u8] + request_id@
                + Response::encoded(response),
            RelayMessageView::DeliveryChanged => seq![101u8],
        },
{
    match said {
        ClientMessageView::ClientHello { version } => {
            number_is_varint(version as nat);
        },
        ClientMessageView::ClientIdentify { user_id, public_key, enrollment } => {
            assert(ClientMessage::encoded(said) =~= seq![102u8] + user_id@ + public_key@ + perhaps(
                enrollment,
            ));
        },
        ClientMessageView::Delivery { request_id, request } => {
            assert(ClientMessage::encoded(said) =~= seq![100u8] + request_id@ + Request::encoded(
                request,
            ));
        },
        _ => {},
    }
    match heard {
        RelayMessageView::ServerHello { version } => {
            number_is_varint(version as nat);
        },
        RelayMessageView::ProtocolError { request_id, error } => {
            if let ProtocolError::UnsupportedVersion { supported, received } = error {
                number_is_varint(supported as nat);
                number_is_varint(received as nat);
            }
            assert(ProtocolError::encoded(error) =~= fault(error));
            assert(RelayMessage::encoded(heard) =~= seq![4u8] + perhaps(
                match request_id {
                    Some(id) => Some(id@),
                    None => None,
                },
            ) + fault(error));
        },
        RelayMessageView::Delivery { request_id, response } => {
            assert(RelayMessage::encoded(heard) =~= seq![100u8] + request_id@ + Response::encoded(
                response,
            ));
        },
        _ => {},
    }
}

/// Whether an operation is one that a message can carry: its body and its welcome are of
/// half a mebibyte at most.
pub open spec fn carried(value: AppendView) -> bool {
    &&& value.body.len() <= 524288
    &&& value.welcome matches Some(welcome) ==> welcome.body.len() <= 524288
}

/// Whether a request is one that a message can carry: a name of four hundred bytes at
/// most, 64 packages at most, of sixteen kibibytes each, receipts for a hundred events
/// and a hundred welcomes at most, and an operation that can be carried.
pub open spec fn request_carried(request: RequestView) -> bool {
    match request {
        RequestView::CreateRoom { name } => encode_utf8(name).len() <= 400,
        RequestView::PublishKeyPackages { packages } => packages.len() <= 64 && forall|i: int|
            0 <= i < packages.len() ==> (#[trigger] packages[i]).len() <= 16384,
        RequestView::Acknowledge { events, welcomes } => events.len() <= 100 && welcomes.len()
            <= 100,
        RequestView::AppendRoomOperation(appended) => carried(appended),
        _ => true,
    }
}

/// A request within a message's size is read back as it was written exactly where it is one
/// that a message can carry.
pub proof fn carrying_requests(request: RequestView)
    requires
        Request::encoded(request).len() <= 786432,
    ensures
        request_carried(request) ==> decoded::<Request>(Request::encoded(request)) == Ok::<
            RequestView,
            DecodeMessageError,
        >(request),
        !request_carried(request) ==> decoded::<Request>(Request::encoded(request)) != Ok::<
            RequestView,
            DecodeMessageError,
        >(request),
{
    assert(Request::bounded(request) == request_carried(request));
    if request_carried(request) {
        message_round_trip::<Request>(request);
    }
    decoded_is_bounded::<Request>(Request::encoded(request));
}

} // verus!
