//! Requests and responses.
use vstd::prelude::*;
use crate::collections::{
    items_encoded, list_encoded, put_list, put_text, Limited, Name,
};
use crate::delivery::{
    Append, AppendView, Copied, Event, EventView, RoomHead, RoomHeadView, WelcomeDelivery,
    WelcomeDeliveryView, MAX_KEY_PACKAGES_PER_PUBLISH, MAX_KEY_PACKAGE_BYTES, PAGE_SIZE,
};
use crate::ids::{MessageId, RoomId, UserId};
use crate::varint::{varint, WireError};
use crate::wire::{behind_tag, put_u64, skip_behind_tag, tagged, Wire};

verus! {

/// Appends a list of key packages.
fn put_packages(packages: &Vec<Vec<u8>>, out: &mut Vec<u8>)
    ensures
        final(out)@ == old(out)@ + list_encoded::<Limited<u8, MAX_KEY_PACKAGE_BYTES>>(
            packages.deep_view(),
        ),
{
    let ghost values = packages.deep_view();
    let ghost before = out@;
    put_u64(packages.len() as u64, out);
    let mut at: usize = 0;
    assert(values.skip(0) =~= values);
    assert(before + varint(values.len()) + items_encoded::<Limited<u8, MAX_KEY_PACKAGE_BYTES>>(
        values,
    ) =~= before + list_encoded::<Limited<u8, MAX_KEY_PACKAGE_BYTES>>(values));
    while at < packages.len()
        invariant
            at <= packages.len(),
            values == packages.deep_view(),
            out@ + items_encoded::<Limited<u8, MAX_KEY_PACKAGE_BYTES>>(values.skip(at as int))
                == before + list_encoded::<Limited<u8, MAX_KEY_PACKAGE_BYTES>>(values),
        decreases packages.len() - at,
    {
        let ghost written = out@;
        put_list(&packages[at], out);
        proof {
            let tail = values.skip(at as int);
            let first = list_encoded::<u8>(packages@[at as int].deep_view());
            assert(tail[0] == packages@[at as int].deep_view());
            assert(tail.skip(1) =~= values.skip(at + 1));
            let later = items_encoded::<Limited<u8, MAX_KEY_PACKAGE_BYTES>>(tail.skip(1));
            assert(written + (first + later) =~= written + first + later);
        }
        at += 1;
    }
    assert(out@ + items_encoded::<Limited<u8, MAX_KEY_PACKAGE_BYTES>>(values.skip(at as int))
        =~= out@);
}

/// The packages inside their wire form.
fn packages_of(
    list: Limited<Limited<u8, MAX_KEY_PACKAGE_BYTES>, MAX_KEY_PACKAGES_PER_PUBLISH>,
) -> (packages: Vec<Vec<u8>>)
    ensures
        packages.deep_view() == list.deep_view(),
{
    let mut packages: Vec<Vec<u8>> = Vec::new();
    let mut at: usize = 0;
    while at < list.0.len()
        invariant
            at <= list.0@.len(),
            packages@.len() == at,
            forall|i: int|
                0 <= i < at ==> (#[trigger] packages@[i]).deep_view() == list.0@[i].0.deep_view(),
        decreases list.0.len() - at,
    {
        packages.push(list.0[at].0.copied());
        at += 1;
    }
    assert(packages.deep_view() =~= list.deep_view());
    packages
}

/// Why the relay refused a request.
#[derive(Clone, Copy, Debug, PartialEq, Eq, Structural)]
pub enum Rejection {
    Invalid,
    Unauthorized,
    NotFound,
    RequestConflict,
    Overloaded,
    Quota,
    Internal,
}

impl DeepView for Rejection {
    type V = Rejection;

    open spec fn deep_view(&self) -> Rejection {
        *self
    }
}

impl Wire for Rejection {
    open spec fn encoded(value: Rejection) -> Seq<u8> {
        match value {
            Rejection::Invalid => seq![0u8],
            Rejection::Unauthorized => seq![1u8],
            Rejection::NotFound => seq![2u8],
            Rejection::RequestConflict => seq![3u8],
            Rejection::Overloaded => seq![4u8],
            Rejection::Quota => seq![5u8],
            Rejection::Internal => seq![6u8],
        }
    }

    open spec fn parsed(bytes: Seq<u8>) -> Result<(Rejection, nat), WireError> {
        if bytes.len() == 0 {
            Err(WireError::UnexpectedEnd)
        } else if bytes[0] == 0 {
            Ok((Rejection::Invalid, 1))
        } else if bytes[0] == 1 {
            Ok((Rejection::Unauthorized, 1))
        } else if bytes[0] == 2 {
            Ok((Rejection::NotFound, 1))
        } else if bytes[0] == 3 {
            Ok((Rejection::RequestConflict, 1))
        } else if bytes[0] == 4 {
            Ok((Rejection::Overloaded, 1))
        } else if bytes[0] == 5 {
            Ok((Rejection::Quota, 1))
        } else if bytes[0] == 6 {
            Ok((Rejection::Internal, 1))
        } else {
            Err(WireError::Rejected)
        }
    }

    open spec fn bounded(value: Rejection) -> bool {
        true
    }

    proof fn round_trip(value: Rejection, rest: Seq<u8>) {
    }

    proof fn parsed_within(bytes: Seq<u8>) {
    }

    fn put(&self, out: &mut Vec<u8>) {
        let tag: u8 = match self {
            Rejection::Invalid => 0,
            Rejection::Unauthorized => 1,
            Rejection::NotFound => 2,
            Rejection::RequestConflict => 3,
            Rejection::Overloaded => 4,
            Rejection::Quota => 5,
            Rejection::Internal => 6,
        };
        tag.put(out)
    }

    fn read<'a>(input: &'a [u8]) -> (result: Result<(Self, &'a [u8]), WireError>) {
        let (tag, rest) = match u8::read(input) {
            Ok(taken) => taken,
            Err(error) => return Err(error),
        };
        if tag == 0 {
            Ok((Rejection::Invalid, rest))
        } else if tag == 1 {
            Ok((Rejection::Unauthorized, rest))
        } else if tag == 2 {
            Ok((Rejection::NotFound, rest))
        } else if tag == 3 {
            Ok((Rejection::RequestConflict, rest))
        } else if tag == 4 {
            Ok((Rejection::Overloaded, rest))
        } else if tag == 5 {
            Ok((Rejection::Quota, rest))
        } else if tag == 6 {
            Ok((Rejection::Internal, rest))
        } else {
            Err(WireError::Rejected)
        }
    }
}

/// What a client asks. The tags are never used again for anything else.
#[derive(Debug, PartialEq, Eq)]
pub enum Request {
    /// Create a room.
    CreateRoom { name: String },
    /// Offer key packages for invitations.
    PublishKeyPackages { packages: Vec<Vec<u8>> },
    /// Confirm what has been stored.
    Acknowledge { events: Vec<MessageId>, welcomes: Vec<u64> },
    /// Extend a room.
    AppendRoomOperation(Append),
    /// Read a room behind a position.
    FetchRoomEvents { room: RoomId, after_sequence: u64 },
    /// List rooms behind one.
    SyncIndex { after_room: Option<RoomId> },
    /// Read invitations behind a cursor.
    FetchWelcomes { after_cursor: u64 },
    /// Take one of another user's key packages.
    ReserveKeyPackage { recipient: UserId },
    /// Say who may take the own key packages.
    SetFetchGrant { requester: UserId, allowed: bool },
}

/// What a [`Request`] holds.
#[verifier::ext_equal]
#[allow(inconsistent_fields)]
pub enum RequestView {
    CreateRoom { name: Seq<char> },
    PublishKeyPackages { packages: Seq<Seq<u8>> },
    Acknowledge { events: Seq<MessageId>, welcomes: Seq<u64> },
    AppendRoomOperation(AppendView),
    FetchRoomEvents { room: RoomId, after_sequence: u64 },
    SyncIndex { after_room: Option<RoomId> },
    FetchWelcomes { after_cursor: u64 },
    ReserveKeyPackage { recipient: UserId },
    SetFetchGrant { requester: UserId, allowed: bool },
}

impl DeepView for Request {
    type V = RequestView;

    open spec fn deep_view(&self) -> RequestView {
        match self {
            Request::CreateRoom { name } => RequestView::CreateRoom { name: name@ },
            Request::PublishKeyPackages { packages } => RequestView::PublishKeyPackages {
                packages: packages.deep_view(),
            },
            Request::Acknowledge { events, welcomes } => RequestView::Acknowledge {
                events: events.deep_view(),
                welcomes: welcomes.deep_view(),
            },
            Request::AppendRoomOperation(operation) => RequestView::AppendRoomOperation(
                operation.deep_view(),
            ),
            Request::FetchRoomEvents { room, after_sequence } => RequestView::FetchRoomEvents {
                room: *room,
                after_sequence: *after_sequence,
            },
            Request::SyncIndex { after_room } => RequestView::SyncIndex {
                after_room: after_room.deep_view(),
            },
            Request::FetchWelcomes { after_cursor } => RequestView::FetchWelcomes {
                after_cursor: *after_cursor,
            },
            Request::ReserveKeyPackage { recipient } => RequestView::ReserveKeyPackage {
                recipient: *recipient,
            },
            Request::SetFetchGrant { requester, allowed } => RequestView::SetFetchGrant {
                requester: *requester,
                allowed: *allowed,
            },
        }
    }
}

impl Clone for Request {
    fn clone(&self) -> (copy: Request)
        ensures
            copy.deep_view() == self.deep_view(),
    {
        match self {
            Request::CreateRoom { name } => Request::CreateRoom { name: name.clone() },
            Request::PublishKeyPackages { packages } => Request::PublishKeyPackages {
                packages: packages.copied(),
            },
            Request::Acknowledge { events, welcomes } => Request::Acknowledge {
                events: events.copied(),
                welcomes: welcomes.copied(),
            },
            Request::AppendRoomOperation(operation) => Request::AppendRoomOperation(operation.clone()),
            Request::FetchRoomEvents { room, after_sequence } => Request::FetchRoomEvents {
                room: *room,
                after_sequence: *after_sequence,
            },
            Request::SyncIndex { after_room } => Request::SyncIndex { after_room: *after_room },
            Request::FetchWelcomes { after_cursor } => Request::FetchWelcomes {
                after_cursor: *after_cursor,
            },
            Request::ReserveKeyPackage { recipient } => Request::ReserveKeyPackage {
                recipient: *recipient,
            },
            Request::SetFetchGrant { requester, allowed } => Request::SetFetchGrant {
                requester: *requester,
                allowed: *allowed,
            },
        }
    }
}

impl Wire for Request {
    open spec fn encoded(value: RequestView) -> Seq<u8> {
        match value {
            RequestView::CreateRoom { name } => seq![0u8] + Name::encoded(name),
            RequestView::PublishKeyPackages { packages } => seq![1u8] + Limited::<Limited<u8, MAX_KEY_PACKAGE_BYTES>, MAX_KEY_PACKAGES_PER_PUBLISH>::encoded(
                packages,
            ),
            RequestView::Acknowledge { events, welcomes } => seq![2u8] + <(
                Limited<MessageId, PAGE_SIZE>,
                Limited<u64, PAGE_SIZE>,
            )>::encoded((events, welcomes)),
            RequestView::AppendRoomOperation(operation) => seq![3u8] + Append::encoded(operation),
            RequestView::FetchRoomEvents { room, after_sequence } => seq![4u8] + <(
                RoomId,
                u64,
            )>::encoded((room, after_sequence)),
            RequestView::SyncIndex { after_room } => seq![5u8] + <Option<RoomId>>::encoded(after_room),
            RequestView::FetchWelcomes { after_cursor } => seq![6u8] + u64::encoded(after_cursor),
            RequestView::ReserveKeyPackage { recipient } => seq![7u8] + UserId::encoded(recipient),
            RequestView::SetFetchGrant { requester, allowed } => seq![8u8] + <(
                UserId,
                bool,
            )>::encoded((requester, allowed)),
        }
    }

    open spec fn parsed(bytes: Seq<u8>) -> Result<(RequestView, nat), WireError> {
        if bytes.len() == 0 {
            Err(WireError::UnexpectedEnd)
        } else if bytes[0] == 0 {
            tagged(
                Name::parsed(bytes.skip(1)),
                |fields: Seq<char>|
                    RequestView::CreateRoom { name: fields },
            )
        } else if bytes[0] == 1 {
            tagged(
                Limited::<Limited<u8, MAX_KEY_PACKAGE_BYTES>, MAX_KEY_PACKAGES_PER_PUBLISH>::parsed(
                    bytes.skip(1),
                ),
                |fields: Seq<Seq<u8>>|
                    RequestView::PublishKeyPackages { packages: fields },
            )
        } else if bytes[0] == 2 {
            tagged(
                <(Limited<MessageId, PAGE_SIZE>, Limited<u64, PAGE_SIZE>)>::parsed(bytes.skip(1)),
                |fields: (Seq<MessageId>, Seq<u64>)|
                    RequestView::Acknowledge { events: fields.0, welcomes: fields.1 },
            )
        } else if bytes[0] == 3 {
            tagged(
                Append::parsed(bytes.skip(1)),
                |fields: AppendView|
                    RequestView::AppendRoomOperation(fields),
            )
        } else if bytes[0] == 4 {
            tagged(
                <(RoomId, u64)>::parsed(bytes.skip(1)),
                |fields: (RoomId, u64)|
                    RequestView::FetchRoomEvents { room: fields.0, after_sequence: fields.1 },
            )
        } else if bytes[0] == 5 {
            tagged(
                <Option<RoomId>>::parsed(bytes.skip(1)),
                |fields: Option<RoomId>|
                    RequestView::SyncIndex { after_room: fields },
            )
        } else if bytes[0] == 6 {
            tagged(
                u64::parsed(bytes.skip(1)),
                |fields: u64|
                    RequestView::FetchWelcomes { after_cursor: fields },
            )
        } else if bytes[0] == 7 {
            tagged(
                UserId::parsed(bytes.skip(1)),
                |fields: UserId|
                    RequestView::ReserveKeyPackage { recipient: fields },
            )
        } else if bytes[0] == 8 {
            tagged(
                <(UserId, bool)>::parsed(bytes.skip(1)),
                |fields: (UserId, bool)|
                    RequestView::SetFetchGrant { requester: fields.0, allowed: fields.1 },
            )
        } else {
            Err(WireError::Rejected)
        }
    }

    open spec fn bounded(value: RequestView) -> bool {
        match value {
            RequestView::CreateRoom { name } => Name::bounded(name),
            RequestView::PublishKeyPackages { packages } => Limited::<Limited<u8, MAX_KEY_PACKAGE_BYTES>, MAX_KEY_PACKAGES_PER_PUBLISH>::bounded(
                packages,
            ),
            RequestView::Acknowledge { events, welcomes } => <(
                Limited<MessageId, PAGE_SIZE>,
                Limited<u64, PAGE_SIZE>,
            )>::bounded((events, welcomes)),
            RequestView::AppendRoomOperation(operation) => Append::bounded(operation),
            RequestView::FetchRoomEvents { room, after_sequence } => <(
                RoomId,
                u64,
            )>::bounded((room, after_sequence)),
            RequestView::SyncIndex { after_room } => <Option<RoomId>>::bounded(after_room),
            RequestView::FetchWelcomes { after_cursor } => u64::bounded(after_cursor),
            RequestView::ReserveKeyPackage { recipient } => UserId::bounded(recipient),
            RequestView::SetFetchGrant { requester, allowed } => <(
                UserId,
                bool,
            )>::bounded((requester, allowed)),
        }
    }

    proof fn round_trip(value: RequestView, rest: Seq<u8>) {
        match value {
            RequestView::CreateRoom { name } => {
                Name::round_trip(name, rest);
                behind_tag(0, Name::encoded(name), rest);
            },
            RequestView::PublishKeyPackages { packages } => {
                Limited::<Limited<u8, MAX_KEY_PACKAGE_BYTES>, MAX_KEY_PACKAGES_PER_PUBLISH>::round_trip(
                    packages,
                    rest,
                );
                behind_tag(
                    1,
                    Limited::<Limited<u8, MAX_KEY_PACKAGE_BYTES>, MAX_KEY_PACKAGES_PER_PUBLISH>::encoded(
                        packages,
                    ),
                    rest,
                );
            },
            RequestView::Acknowledge { events, welcomes } => {
                <(Limited<MessageId, PAGE_SIZE>, Limited<u64, PAGE_SIZE>)>::round_trip(
                    (events, welcomes),
                    rest,
                );
                behind_tag(
                    2,
                    <(
                        Limited<MessageId, PAGE_SIZE>,
                        Limited<u64, PAGE_SIZE>,
                    )>::encoded((events, welcomes)),
                    rest,
                );
            },
            RequestView::AppendRoomOperation(operation) => {
                Append::round_trip(operation, rest);
                behind_tag(3, Append::encoded(operation), rest);
            },
            RequestView::FetchRoomEvents { room, after_sequence } => {
                <(RoomId, u64)>::round_trip((room, after_sequence), rest);
                behind_tag(4, <(RoomId, u64)>::encoded((room, after_sequence)), rest);
            },
            RequestView::SyncIndex { after_room } => {
                <Option<RoomId>>::round_trip(after_room, rest);
                behind_tag(5, <Option<RoomId>>::encoded(after_room), rest);
            },
            RequestView::FetchWelcomes { after_cursor } => {
                u64::round_trip(after_cursor, rest);
                behind_tag(6, u64::encoded(after_cursor), rest);
            },
            RequestView::ReserveKeyPackage { recipient } => {
                UserId::round_trip(recipient, rest);
                behind_tag(7, UserId::encoded(recipient), rest);
            },
            RequestView::SetFetchGrant { requester, allowed } => {
                <(UserId, bool)>::round_trip((requester, allowed), rest);
                behind_tag(8, <(UserId, bool)>::encoded((requester, allowed)), rest);
            },
        }
    }

    proof fn parsed_within(bytes: Seq<u8>) {
        if bytes.len() > 0 {
            let tag = bytes[0];
            let rest = bytes.skip(1);
            if tag == 0 {
                Name::parsed_within(rest);
            }
            if tag == 1 {
                Limited::<Limited<u8, MAX_KEY_PACKAGE_BYTES>, MAX_KEY_PACKAGES_PER_PUBLISH>::parsed_within(
                    rest,
                );
            }
            if tag == 2 {
                <(Limited<MessageId, PAGE_SIZE>, Limited<u64, PAGE_SIZE>)>::parsed_within(rest);
            }
            if tag == 3 {
                Append::parsed_within(rest);
            }
            if tag == 4 {
                <(RoomId, u64)>::parsed_within(rest);
            }
            if tag == 5 {
                <Option<RoomId>>::parsed_within(rest);
            }
            if tag == 6 {
                u64::parsed_within(rest);
            }
            if tag == 7 {
                UserId::parsed_within(rest);
            }
            if tag == 8 {
                <(UserId, bool)>::parsed_within(rest);
            }
        }
    }

    fn put(&self, out: &mut Vec<u8>) {
        match self {
            Request::CreateRoom { name } => {
                0u8.put(out);
                put_text(name, out);
            },
            Request::PublishKeyPackages { packages } => {
                1u8.put(out);
                put_packages(packages, out);
            },
            Request::Acknowledge { events, welcomes } => {
                2u8.put(out);
                put_list(events, out);
                put_list(welcomes, out);
            },
            Request::AppendRoomOperation(operation) => {
                3u8.put(out);
                operation.put(out);
            },
            Request::FetchRoomEvents { room, after_sequence } => {
                4u8.put(out);
                room.put(out);
                after_sequence.put(out);
            },
            Request::SyncIndex { after_room } => {
                5u8.put(out);
                after_room.put(out);
            },
            Request::FetchWelcomes { after_cursor } => {
                6u8.put(out);
                after_cursor.put(out);
            },
            Request::ReserveKeyPackage { recipient } => {
                7u8.put(out);
                recipient.put(out);
            },
            Request::SetFetchGrant { requester, allowed } => {
                8u8.put(out);
                requester.put(out);
                allowed.put(out);
            },
        }
        assert(out@ =~= old(out)@ + Self::encoded(self.deep_view()));
    }

    fn read<'a>(input: &'a [u8]) -> (result: Result<(Self, &'a [u8]), WireError>) {
        let (tag, rest) = match u8::read(input) {
            Ok(taken) => taken,
            Err(error) => return Err(error),
        };
        let ghost behind = rest@;
        if tag == 0 {
            match Name::read(rest) {
                Ok((name, end)) => {
                    proof {
                        Name::parsed_within(behind);
                        skip_behind_tag(input@, Name::parsed(behind)->Ok_0.1);
                    }
                    Ok((Request::CreateRoom { name: name.0 }, end))
                },
                Err(error) => Err(error),
            }
        } else if tag == 1 {
            match Limited::<Limited<u8, MAX_KEY_PACKAGE_BYTES>, MAX_KEY_PACKAGES_PER_PUBLISH>::read(rest) {
                Ok((packages, end)) => {
                    proof {
                        Limited::<Limited<u8, MAX_KEY_PACKAGE_BYTES>, MAX_KEY_PACKAGES_PER_PUBLISH>::parsed_within(
                            behind,
                        );
                        skip_behind_tag(
                            input@,
                            Limited::<Limited<u8, MAX_KEY_PACKAGE_BYTES>, MAX_KEY_PACKAGES_PER_PUBLISH>::parsed(
                                behind,
                            )->Ok_0.1,
                        );
                    }
                    Ok((Request::PublishKeyPackages { packages: packages_of(packages) }, end))
                },
                Err(error) => Err(error),
            }
        } else if tag == 2 {
            match <(Limited<MessageId, PAGE_SIZE>, Limited<u64, PAGE_SIZE>)>::read(rest) {
                Ok(((events, welcomes), end)) => {
                    proof {
                        <(
                            Limited<MessageId, PAGE_SIZE>,
                            Limited<u64, PAGE_SIZE>,
                        )>::parsed_within(behind);
                        skip_behind_tag(
                            input@,
                            <(
                                Limited<MessageId, PAGE_SIZE>,
                                Limited<u64, PAGE_SIZE>,
                            )>::parsed(behind)->Ok_0.1,
                        );
                    }
                    Ok((Request::Acknowledge { events: events.0, welcomes: welcomes.0 }, end))
                },
                Err(error) => Err(error),
            }
        } else if tag == 3 {
            match Append::read(rest) {
                Ok((operation, end)) => {
                    proof {
                        Append::parsed_within(behind);
                        skip_behind_tag(input@, Append::parsed(behind)->Ok_0.1);
                    }
                    Ok((Request::AppendRoomOperation(operation), end))
                },
                Err(error) => Err(error),
            }
        } else if tag == 4 {
            match <(RoomId, u64)>::read(rest) {
                Ok(((room, after_sequence), end)) => {
                    proof {
                        <(RoomId, u64)>::parsed_within(behind);
                        skip_behind_tag(input@, <(RoomId, u64)>::parsed(behind)->Ok_0.1);
                    }
                    Ok((Request::FetchRoomEvents { room, after_sequence }, end))
                },
                Err(error) => Err(error),
            }
        } else if tag == 5 {
            match <Option<RoomId>>::read(rest) {
                Ok((after_room, end)) => {
                    proof {
                        <Option<RoomId>>::parsed_within(behind);
                        skip_behind_tag(input@, <Option<RoomId>>::parsed(behind)->Ok_0.1);
                    }
                    Ok((Request::SyncIndex { after_room }, end))
                },
                Err(error) => Err(error),
            }
        } else if tag == 6 {
            match u64::read(rest) {
                Ok((after_cursor, end)) => {
                    proof {
                        u64::parsed_within(behind);
                        skip_behind_tag(input@, u64::parsed(behind)->Ok_0.1);
                    }
                    Ok((Request::FetchWelcomes { after_cursor }, end))
                },
                Err(error) => Err(error),
            }
        } else if tag == 7 {
            match UserId::read(rest) {
                Ok((recipient, end)) => {
                    proof {
                        UserId::parsed_within(behind);
                        skip_behind_tag(input@, UserId::parsed(behind)->Ok_0.1);
                    }
                    Ok((Request::ReserveKeyPackage { recipient }, end))
                },
                Err(error) => Err(error),
            }
        } else if tag == 8 {
            match <(UserId, bool)>::read(rest) {
                Ok(((requester, allowed), end)) => {
                    proof {
                        <(UserId, bool)>::parsed_within(behind);
                        skip_behind_tag(input@, <(UserId, bool)>::parsed(behind)->Ok_0.1);
                    }
                    Ok((Request::SetFetchGrant { requester, allowed }, end))
                },
                Err(error) => Err(error),
            }
        } else {
            Err(WireError::Rejected)
        }
    }
}

/// What the relay answers. The tags are never used again for anything else.
#[derive(Debug, PartialEq, Eq)]
pub enum Response {
    /// The room is there.
    RoomCreated { room: RoomId },
    /// So many packages were kept.
    KeyPackagesPublished { count: u64 },
    /// The receipt is recorded.
    Acknowledged,
    /// The room was extended.
    AppendAccepted { event: Event },
    /// The room is at another head.
    HeadConflict { room: RoomId, head: u64 },
    /// A page of events.
    RoomEvents { room: RoomId, after_sequence: u64, events: Vec<Event>, more: bool },
    /// A page of rooms.
    SyncIndex { rooms: Vec<RoomHead>, more: bool },
    /// A page of invitations.
    Welcomes { after_cursor: u64, welcomes: Vec<WelcomeDelivery>, more: bool },
    /// The package that was taken.
    KeyPackage { recipient: UserId, package: Vec<u8> },
    /// The grant is recorded.
    FetchGrantSet,
    /// The request was refused.
    Rejected(Rejection),
}

/// What a [`Response`] holds.
#[verifier::ext_equal]
#[allow(inconsistent_fields)]
pub enum ResponseView {
    RoomCreated { room: RoomId },
    KeyPackagesPublished { count: u64 },
    Acknowledged,
    AppendAccepted { event: EventView },
    HeadConflict { room: RoomId, head: u64 },
    RoomEvents { room: RoomId, after_sequence: u64, events: Seq<EventView>, more: bool },
    SyncIndex { rooms: Seq<RoomHeadView>, more: bool },
    Welcomes { after_cursor: u64, welcomes: Seq<WelcomeDeliveryView>, more: bool },
    KeyPackage { recipient: UserId, package: Seq<u8> },
    FetchGrantSet,
    Rejected(Rejection),
}

impl DeepView for Response {
    type V = ResponseView;

    open spec fn deep_view(&self) -> ResponseView {
        match self {
            Response::RoomCreated { room } => ResponseView::RoomCreated { room: *room },
            Response::KeyPackagesPublished { count } => ResponseView::KeyPackagesPublished {
                count: *count,
            },
            Response::Acknowledged => ResponseView::Acknowledged,
            Response::AppendAccepted { event } => ResponseView::AppendAccepted {
                event: event.deep_view(),
            },
            Response::HeadConflict { room, head } => ResponseView::HeadConflict {
                room: *room,
                head: *head,
            },
            Response::RoomEvents { room, after_sequence, events, more } => ResponseView::RoomEvents {
                room: *room,
                after_sequence: *after_sequence,
                events: events.deep_view(),
                more: *more,
            },
            Response::SyncIndex { rooms, more } => ResponseView::SyncIndex {
                rooms: rooms.deep_view(),
                more: *more,
            },
            Response::Welcomes { after_cursor, welcomes, more } => ResponseView::Welcomes {
                after_cursor: *after_cursor,
                welcomes: welcomes.deep_view(),
                more: *more,
            },
            Response::KeyPackage { recipient, package } => ResponseView::KeyPackage {
                recipient: *recipient,
                package: package.deep_view(),
            },
            Response::FetchGrantSet => ResponseView::FetchGrantSet,
            Response::Rejected(reason) => ResponseView::Rejected(*reason),
        }
    }
}

impl Clone for Response {
    fn clone(&self) -> (copy: Response)
        ensures
            copy.deep_view() == self.deep_view(),
    {
        match self {
            Response::RoomCreated { room } => Response::RoomCreated { room: *room },
            Response::KeyPackagesPublished { count } => Response::KeyPackagesPublished { count: *count },
            Response::Acknowledged => Response::Acknowledged,
            Response::AppendAccepted { event } => Response::AppendAccepted { event: event.clone() },
            Response::HeadConflict { room, head } => Response::HeadConflict {
                room: *room,
                head: *head,
            },
            Response::RoomEvents { room, after_sequence, events, more } => Response::RoomEvents {
                room: *room,
                after_sequence: *after_sequence,
                events: events.copied(),
                more: *more,
            },
            Response::SyncIndex { rooms, more } => Response::SyncIndex {
                rooms: rooms.copied(),
                more: *more,
            },
            Response::Welcomes { after_cursor, welcomes, more } => Response::Welcomes {
                after_cursor: *after_cursor,
                welcomes: welcomes.copied(),
                more: *more,
            },
            Response::KeyPackage { recipient, package } => Response::KeyPackage {
                recipient: *recipient,
                package: package.copied(),
            },
            Response::FetchGrantSet => Response::FetchGrantSet,
            Response::Rejected(reason) => Response::Rejected(*reason),
        }
    }
}

impl Wire for Response {
    open spec fn encoded(value: ResponseView) -> Seq<u8> {
        match value {
            ResponseView::RoomCreated { room } => seq![0u8] + RoomId::encoded(room),
            ResponseView::KeyPackagesPublished { count } => seq![1u8] + u64::encoded(count),
            ResponseView::Acknowledged => seq![2u8],
            ResponseView::AppendAccepted { event } => seq![3u8] + Event::encoded(event),
            ResponseView::HeadConflict { room, head } => seq![4u8] + <(
                RoomId,
                u64,
            )>::encoded((room, head)),
            ResponseView::RoomEvents { room, after_sequence, events, more } => seq![5u8] + <(RoomId, (u64, (Limited<Event, PAGE_SIZE>, bool)))>::encoded(
                (room, (after_sequence, (events, more))),
            ),
            ResponseView::SyncIndex { rooms, more } => seq![6u8] + <(
                Limited<RoomHead, PAGE_SIZE>,
                bool,
            )>::encoded((rooms, more)),
            ResponseView::Welcomes { after_cursor, welcomes, more } => seq![7u8] + <(u64, (Limited<WelcomeDelivery, PAGE_SIZE>, bool))>::encoded(
                (after_cursor, (welcomes, more)),
            ),
            ResponseView::KeyPackage { recipient, package } => seq![8u8] + <(
                UserId,
                Limited<u8, MAX_KEY_PACKAGE_BYTES>,
            )>::encoded((recipient, package)),
            ResponseView::FetchGrantSet => seq![9u8],
            ResponseView::Rejected(reason) => seq![10u8] + Rejection::encoded(reason),
        }
    }

    open spec fn parsed(bytes: Seq<u8>) -> Result<(ResponseView, nat), WireError> {
        if bytes.len() == 0 {
            Err(WireError::UnexpectedEnd)
        } else if bytes[0] == 0 {
            tagged(
                RoomId::parsed(bytes.skip(1)),
                |fields: RoomId|
                    ResponseView::RoomCreated { room: fields },
            )
        } else if bytes[0] == 1 {
            tagged(
                u64::parsed(bytes.skip(1)),
                |fields: u64|
                    ResponseView::KeyPackagesPublished { count: fields },
            )
        } else if bytes[0] == 2 {
            Ok((ResponseView::Acknowledged, 1))
        } else if bytes[0] == 3 {
            tagged(
                Event::parsed(bytes.skip(1)),
                |fields: EventView|
                    ResponseView::AppendAccepted { event: fields },
            )
        } else if bytes[0] == 4 {
            tagged(
                <(RoomId, u64)>::parsed(bytes.skip(1)),
                |fields: (RoomId, u64)|
                    ResponseView::HeadConflict { room: fields.0, head: fields.1 },
            )
        } else if bytes[0] == 5 {
            tagged(
                <(RoomId, (u64, (Limited<Event, PAGE_SIZE>, bool)))>::parsed(bytes.skip(1)),
                |fields: (RoomId, (u64, (Seq<EventView>, bool)))|
                    ResponseView::RoomEvents {
                        room: fields.0,
                        after_sequence: fields.1.0,
                        events: fields.1.1.0,
                        more: fields.1.1.1,
                    },
            )
        } else if bytes[0] == 6 {
            tagged(
                <(Limited<RoomHead, PAGE_SIZE>, bool)>::parsed(bytes.skip(1)),
                |fields: (Seq<RoomHeadView>, bool)|
                    ResponseView::SyncIndex { rooms: fields.0, more: fields.1 },
            )
        } else if bytes[0] == 7 {
            tagged(
                <(u64, (Limited<WelcomeDelivery, PAGE_SIZE>, bool))>::parsed(bytes.skip(1)),
                |fields: (u64, (Seq<WelcomeDeliveryView>, bool))|
                    ResponseView::Welcomes {
                        after_cursor: fields.0,
                        welcomes: fields.1.0,
                        more: fields.1.1,
                    },
            )
        } else if bytes[0] == 8 {
            tagged(
                <(UserId, Limited<u8, MAX_KEY_PACKAGE_BYTES>)>::parsed(bytes.skip(1)),
                |fields: (UserId, Seq<u8>)|
                    ResponseView::KeyPackage { recipient: fields.0, package: fields.1 },
            )
        } else if bytes[0] == 9 {
            Ok((ResponseView::FetchGrantSet, 1))
        } else if bytes[0] == 10 {
            tagged(
                Rejection::parsed(bytes.skip(1)),
                |fields: Rejection|
                    ResponseView::Rejected(fields),
            )
        } else {
            Err(WireError::Rejected)
        }
    }

    open spec fn bounded(value: ResponseView) -> bool {
        match value {
            ResponseView::RoomCreated { room } => RoomId::bounded(room),
            ResponseView::KeyPackagesPublished { count } => u64::bounded(count),
            ResponseView::Acknowledged => true,
            ResponseView::AppendAccepted { event } => Event::bounded(event),
            ResponseView::HeadConflict { room, head } => <(RoomId, u64)>::bounded((room, head)),
            ResponseView::RoomEvents { room, after_sequence, events, more } => <(RoomId, (u64, (Limited<Event, PAGE_SIZE>, bool)))>::bounded(
                (room, (after_sequence, (events, more))),
            ),
            ResponseView::SyncIndex { rooms, more } => <(
                Limited<RoomHead, PAGE_SIZE>,
                bool,
            )>::bounded((rooms, more)),
            ResponseView::Welcomes { after_cursor, welcomes, more } => <(u64, (Limited<WelcomeDelivery, PAGE_SIZE>, bool))>::bounded(
                (after_cursor, (welcomes, more)),
            ),
            ResponseView::KeyPackage { recipient, package } => <(
                UserId,
                Limited<u8, MAX_KEY_PACKAGE_BYTES>,
            )>::bounded((recipient, package)),
            ResponseView::FetchGrantSet => true,
            ResponseView::Rejected(reason) => Rejection::bounded(reason),
        }
    }

    #[verifier::rlimit(60)]
    #[verifier::spinoff_prover]
    proof fn round_trip(value: ResponseView, rest: Seq<u8>) {
        match value {
            ResponseView::RoomCreated { room } => {
                RoomId::round_trip(room, rest);
                behind_tag(0, RoomId::encoded(room), rest);
            },
            ResponseView::KeyPackagesPublished { count } => {
                u64::round_trip(count, rest);
                behind_tag(1, u64::encoded(count), rest);
            },
            ResponseView::Acknowledged => {},
            ResponseView::AppendAccepted { event } => {
                Event::round_trip(event, rest);
                behind_tag(3, Event::encoded(event), rest);
            },
            ResponseView::HeadConflict { room, head } => {
                <(RoomId, u64)>::round_trip((room, head), rest);
                behind_tag(4, <(RoomId, u64)>::encoded((room, head)), rest);
            },
            ResponseView::RoomEvents { room, after_sequence, events, more } => {
                <(RoomId, (u64, (Limited<Event, PAGE_SIZE>, bool)))>::round_trip(
                    (room, (after_sequence, (events, more))),
                    rest,
                );
                behind_tag(
                    5,
                    <(RoomId, (u64, (Limited<Event, PAGE_SIZE>, bool)))>::encoded(
                        (room, (after_sequence, (events, more))),
                    ),
                    rest,
                );
            },
            ResponseView::SyncIndex { rooms, more } => {
                <(Limited<RoomHead, PAGE_SIZE>, bool)>::round_trip((rooms, more), rest);
                behind_tag(6, <(Limited<RoomHead, PAGE_SIZE>, bool)>::encoded((rooms, more)), rest);
            },
            ResponseView::Welcomes { after_cursor, welcomes, more } => {
                <(u64, (Limited<WelcomeDelivery, PAGE_SIZE>, bool))>::round_trip(
                    (after_cursor, (welcomes, more)),
                    rest,
                );
                behind_tag(
                    7,
                    <(u64, (Limited<WelcomeDelivery, PAGE_SIZE>, bool))>::encoded(
                        (after_cursor, (welcomes, more)),
                    ),
                    rest,
                );
            },
            ResponseView::KeyPackage { recipient, package } => {
                <(UserId, Limited<u8, MAX_KEY_PACKAGE_BYTES>)>::round_trip(
                    (recipient, package),
                    rest,
                );
                behind_tag(
                    8,
                    <(UserId, Limited<u8, MAX_KEY_PACKAGE_BYTES>)>::encoded((recipient, package)),
                    rest,
                );
            },
            ResponseView::FetchGrantSet => {},
            ResponseView::Rejected(reason) => {
                Rejection::round_trip(reason, rest);
                behind_tag(10, Rejection::encoded(reason), rest);
            },
        }
    }

    proof fn parsed_within(bytes: Seq<u8>) {
        if bytes.len() > 0 {
            let tag = bytes[0];
            let rest = bytes.skip(1);
            if tag == 0 {
                RoomId::parsed_within(rest);
            }
            if tag == 1 {
                u64::parsed_within(rest);
            }
            if tag == 3 {
                Event::parsed_within(rest);
            }
            if tag == 4 {
                <(RoomId, u64)>::parsed_within(rest);
            }
            if tag == 5 {
                <(RoomId, (u64, (Limited<Event, PAGE_SIZE>, bool)))>::parsed_within(rest);
            }
            if tag == 6 {
                <(Limited<RoomHead, PAGE_SIZE>, bool)>::parsed_within(rest);
            }
            if tag == 7 {
                <(u64, (Limited<WelcomeDelivery, PAGE_SIZE>, bool))>::parsed_within(rest);
            }
            if tag == 8 {
                <(UserId, Limited<u8, MAX_KEY_PACKAGE_BYTES>)>::parsed_within(rest);
            }
            if tag == 10 {
                Rejection::parsed_within(rest);
            }
        }
    }

    fn put(&self, out: &mut Vec<u8>) {
        match self {
            Response::RoomCreated { room } => {
                0u8.put(out);
                room.put(out);
            },
            Response::KeyPackagesPublished { count } => {
                1u8.put(out);
                count.put(out);
            },
            Response::Acknowledged => {
                2u8.put(out);
            },
            Response::AppendAccepted { event } => {
                3u8.put(out);
                event.put(out);
            },
            Response::HeadConflict { room, head } => {
                4u8.put(out);
                room.put(out);
                head.put(out);
            },
            Response::RoomEvents { room, after_sequence, events, more } => {
                5u8.put(out);
                room.put(out);
                after_sequence.put(out);
                put_list(events, out);
                more.put(out);
            },
            Response::SyncIndex { rooms, more } => {
                6u8.put(out);
                put_list(rooms, out);
                more.put(out);
            },
            Response::Welcomes { after_cursor, welcomes, more } => {
                7u8.put(out);
                after_cursor.put(out);
                put_list(welcomes, out);
                more.put(out);
            },
            Response::KeyPackage { recipient, package } => {
                8u8.put(out);
                recipient.put(out);
                put_list(package, out);
            },
            Response::FetchGrantSet => {
                9u8.put(out);
            },
            Response::Rejected(reason) => {
                10u8.put(out);
                reason.put(out);
            },
        }
        assert(out@ =~= old(out)@ + Self::encoded(self.deep_view()));
    }

    fn read<'a>(input: &'a [u8]) -> (result: Result<(Self, &'a [u8]), WireError>) {
        let (tag, rest) = match u8::read(input) {
            Ok(taken) => taken,
            Err(error) => return Err(error),
        };
        let ghost behind = rest@;
        if tag == 0 {
            match RoomId::read(rest) {
                Ok((room, end)) => {
                    proof {
                        RoomId::parsed_within(behind);
                        skip_behind_tag(input@, RoomId::parsed(behind)->Ok_0.1);
                    }
                    Ok((Response::RoomCreated { room }, end))
                },
                Err(error) => Err(error),
            }
        } else if tag == 1 {
            match u64::read(rest) {
                Ok((count, end)) => {
                    proof {
                        u64::parsed_within(behind);
                        skip_behind_tag(input@, u64::parsed(behind)->Ok_0.1);
                    }
                    Ok((Response::KeyPackagesPublished { count }, end))
                },
                Err(error) => Err(error),
            }
        } else if tag == 2 {
            Ok((Response::Acknowledged, rest))
        } else if tag == 3 {
            match Event::read(rest) {
                Ok((event, end)) => {
                    proof {
                        Event::parsed_within(behind);
                        skip_behind_tag(input@, Event::parsed(behind)->Ok_0.1);
                    }
                    Ok((Response::AppendAccepted { event }, end))
                },
                Err(error) => Err(error),
            }
        } else if tag == 4 {
            match <(RoomId, u64)>::read(rest) {
                Ok(((room, head), end)) => {
                    proof {
                        <(RoomId, u64)>::parsed_within(behind);
                        skip_behind_tag(input@, <(RoomId, u64)>::parsed(behind)->Ok_0.1);
                    }
                    Ok((Response::HeadConflict { room, head }, end))
                },
                Err(error) => Err(error),
            }
        } else if tag == 5 {
            match <(RoomId, (u64, (Limited<Event, PAGE_SIZE>, bool)))>::read(rest) {
                Ok(((room, (after_sequence, (events, more))), end)) => {
                    proof {
                        <(RoomId, (u64, (Limited<Event, PAGE_SIZE>, bool)))>::parsed_within(behind);
                        skip_behind_tag(
                            input@,
                            <(
                                RoomId,
                                (u64, (Limited<Event, PAGE_SIZE>, bool)),
                            )>::parsed(behind)->Ok_0.1,
                        );
                    }
                    Ok((Response::RoomEvents { room, after_sequence, events: events.0, more }, end))
                },
                Err(error) => Err(error),
            }
        } else if tag == 6 {
            match <(Limited<RoomHead, PAGE_SIZE>, bool)>::read(rest) {
                Ok(((rooms, more), end)) => {
                    proof {
                        <(Limited<RoomHead, PAGE_SIZE>, bool)>::parsed_within(behind);
                        skip_behind_tag(
                            input@,
                            <(Limited<RoomHead, PAGE_SIZE>, bool)>::parsed(behind)->Ok_0.1,
                        );
                    }
                    Ok((Response::SyncIndex { rooms: rooms.0, more }, end))
                },
                Err(error) => Err(error),
            }
        } else if tag == 7 {
            match <(u64, (Limited<WelcomeDelivery, PAGE_SIZE>, bool))>::read(rest) {
                Ok(((after_cursor, (welcomes, more)), end)) => {
                    proof {
                        <(u64, (Limited<WelcomeDelivery, PAGE_SIZE>, bool))>::parsed_within(behind);
                        skip_behind_tag(
                            input@,
                            <(
                                u64,
                                (Limited<WelcomeDelivery, PAGE_SIZE>, bool),
                            )>::parsed(behind)->Ok_0.1,
                        );
                    }
                    Ok((Response::Welcomes { after_cursor, welcomes: welcomes.0, more }, end))
                },
                Err(error) => Err(error),
            }
        } else if tag == 8 {
            match <(UserId, Limited<u8, MAX_KEY_PACKAGE_BYTES>)>::read(rest) {
                Ok(((recipient, package), end)) => {
                    proof {
                        <(UserId, Limited<u8, MAX_KEY_PACKAGE_BYTES>)>::parsed_within(behind);
                        skip_behind_tag(
                            input@,
                            <(UserId, Limited<u8, MAX_KEY_PACKAGE_BYTES>)>::parsed(behind)->Ok_0.1,
                        );
                    }
                    Ok((Response::KeyPackage { recipient, package: package.0 }, end))
                },
                Err(error) => Err(error),
            }
        } else if tag == 9 {
            Ok((Response::FetchGrantSet, rest))
        } else if tag == 10 {
            match Rejection::read(rest) {
                Ok((reason, end)) => {
                    proof {
                        Rejection::parsed_within(behind);
                        skip_behind_tag(input@, Rejection::parsed(behind)->Ok_0.1);
                    }
                    Ok((Response::Rejected(reason), end))
                },
                Err(error) => Err(error),
            }
        } else {
            Err(WireError::Rejected)
        }
    }
}

} // verus!
