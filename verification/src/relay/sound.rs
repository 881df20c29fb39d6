//! What holds of the tables whatever was delivered.
use vstd::prelude::*;
use crate::delivery::{
    AppendView, Event, EventView, WelcomeDelivery, WelcomeDeliveryView, MAX_KEY_PACKAGE_BYTES,
    MAX_MLS_BLOB_BYTES, MAX_PAYLOAD,
};
use crate::ids::{MessageId, RoomId, UserId};
use crate::protocol::{decoded, normalized_name, MAX_ROOM_NAME_CHARS};
use crate::relay::deliver::{execution, outcome, passing, reads_only, with_charges};
use crate::relay::limits::{StorageFacts, StorageLimits};
use crate::relay::reads::{events_behind, PAGE_BYTES};
use crate::relay::service::outcome_admitted;
use crate::relay::tables::{
    admitted, all_admitted, all_applied, applied, change_keeps_order, empty_view, first_package,
    in_order, room_head, room_known, ChangeView, EventRowView, PackageRowView, RelayView,
    RequestRowView, RoomRowView, WelcomeRowView,
};
use crate::relay::writes::{
    creation, extension, first_room, operation_valid, packages_valid, packages_waiting, rooms_created,
    waiting_welcome, welcoming, MAX_ROOMS_PER_CREATOR, MAX_WAITING_PACKAGES,
};
use crate::requests::{Request, RequestView, Response, ResponseView};
use crate::wire::Wire;

verus! {

/// Whether an event row holds the event that it says, as it was accepted.
pub open spec fn event_row_sound(row: EventRowView) -> bool {
    exists|event: EventView| #[trigger] holds_event(row, event)
}

/// Whether a row holds an event.
pub open spec fn holds_event(row: EventRowView, event: EventView) -> bool {
    &&& row.record == Event::encoded(event)
    &&& row.id == event.id
    &&& row.sender == event.sender
    &&& row.room == event.operation.room
    &&& row.sequence == event.operation.parent + 1
    &&& operation_valid(event.operation)
}

/// Whether a welcome row holds a welcome for its recipient.
pub open spec fn welcome_row_sound(row: WelcomeRowView) -> bool {
    exists|delivery: WelcomeDeliveryView| #[trigger] holds_welcome(row, delivery)
}

/// Whether a row holds a welcome.
pub open spec fn holds_welcome(row: WelcomeRowView, delivery: WelcomeDeliveryView) -> bool {
    &&& row.record == WelcomeDelivery::encoded(delivery)
    &&& delivery.cursor == 0
    &&& row.recipient == delivery.attachment.recipient
    &&& delivery.room_name.len() <= MAX_ROOM_NAME_CHARS
    &&& 0 < delivery.attachment.body.len() <= MAX_MLS_BLOB_BYTES
}

/// Whether a request row holds an answer.
pub open spec fn request_row_sound(row: RequestRowView) -> bool {
    exists|response: ResponseView| #[trigger] holds_response(row, response)
}

/// Whether a row holds an answer, which fits a message.
pub open spec fn holds_response(row: RequestRowView, response: ResponseView) -> bool {
    row.response == Response::encoded(response) && Response::bounded(response)
        && row.response.len() + 17 <= MAX_PAYLOAD
}

/// Whether the positions in a room leave no gap.
pub open spec fn contiguous(events: Seq<EventRowView>) -> bool {
    forall|i: int|
        0 <= i < events.len() ==> (#[trigger] events[i]).sequence == room_head(
            events.take(i),
            events[i].room,
        ) + 1
}

/// What holds of the tables whatever was delivered.
pub open spec fn sound(view: RelayView) -> bool {
    &&& in_order(view)
    &&& contiguous(view.events)
    &&& forall|i: int| 0 <= i < view.events.len() ==> event_row_sound(#[trigger] view.events[i])
    &&& forall|i: int|
        0 <= i < view.welcomes.len() ==> welcome_row_sound(#[trigger] view.welcomes[i])
    &&& forall|i: int|
        0 <= i < view.rooms.len() ==> (#[trigger] view.rooms[i]).name.len() <= MAX_ROOM_NAME_CHARS
    &&& forall|i: int|
        0 <= i < view.packages.len() ==> 0 < (#[trigger] view.packages[i]).package.len()
            <= MAX_KEY_PACKAGE_BYTES
    &&& forall|user: UserId| #[trigger]
        packages_waiting(view.packages, user) <= MAX_WAITING_PACKAGES
    &&& forall|user: UserId| #[trigger] rooms_created(view.rooms, user) <= MAX_ROOMS_PER_CREATOR
    &&& forall|room: RoomId, user: UserId| #[trigger]
        view.subscribers.contains((room, user)) ==> room_known(view.rooms, room)
    &&& forall|i: int|
        0 <= i < view.events.len() ==> room_known(view.rooms, (#[trigger] view.events[i]).room)
    &&& forall|key: (UserId, MessageId)| #[trigger]
        view.requests.contains_key(key) ==> request_row_sound(view.requests[key])
}

/// Whether a change keeps the tables sound.
pub open spec fn fits(view: RelayView, change: ChangeView) -> bool {
    match change {
        ChangeView::Room { name, created_by, .. } => name.len() <= MAX_ROOM_NAME_CHARS
            && rooms_created(view.rooms, created_by) < MAX_ROOMS_PER_CREATOR,
        ChangeView::Subscriber { room, .. } => room_known(view.rooms, room),
        ChangeView::Package { user, package } => 0 < package.len() <= MAX_KEY_PACKAGE_BYTES
            && packages_waiting(view.packages, user) < MAX_WAITING_PACKAGES,
        ChangeView::Event { room, sequence, id, sender, record } => sequence == room_head(
            view.events,
            room,
        ) + 1 && event_row_sound(EventRowView { room, sequence, id, sender, record })
            && room_known(view.rooms, room),
        ChangeView::Welcome { cursor, recipient, record } => welcome_row_sound(
            WelcomeRowView { cursor, recipient, record },
        ),
        ChangeView::Request { hash, response, .. } => request_row_sound(
            RequestRowView { hash, response },
        ),
        _ => true,
    }
}

/// Whether changes keep the tables sound one after the other.
pub open spec fn all_fit(view: RelayView, changes: Seq<ChangeView>) -> bool
    decreases changes.len(),
{
    changes.len() == 0 || (all_fit(view, changes.drop_last()) && fits(
        all_applied(view, changes.drop_last()),
        changes.last(),
    ))
}

/// A relay that holds nothing is sound.
pub proof fn empty_is_sound()
    ensures
        sound(empty_view()),
{
}

proof fn waiting_after_removal(packages: Seq<PackageRowView>, at: int, user: UserId)
    requires
        0 <= at < packages.len(),
    ensures
        packages_waiting(packages.remove(at), user) <= packages_waiting(packages, user),
    decreases packages.len(),
{
    let after = packages.remove(at);
    if at == packages.len() - 1 {
        assert(after =~= packages.drop_last());
    } else {
        waiting_after_removal(packages.drop_last(), at, user);
        assert(after.drop_last() =~= packages.drop_last().remove(at));
        assert(after.last() == packages.last());
    }
}

proof fn room_stays_known(view: RelayView, row: RoomRowView, room: RoomId)
    requires
        room_known(view.rooms, room),
    ensures
        room_known(view.rooms.push(row), room),
{
    let i = choose|i: int| 0 <= i < view.rooms.len() && (#[trigger] view.rooms[i]).room == room;
    assert(view.rooms.push(row)[i].room == room);
}

/// A change that the tables take and that fits keeps them sound.
#[verifier::rlimit(40)]
pub proof fn change_keeps_sound(view: RelayView, change: ChangeView)
    requires
        sound(view),
        admitted(view, change),
        fits(view, change),
    ensures
        sound(applied(view, change)),
{
    let after = applied(view, change);
    change_keeps_order(view, change);
    match change {
        ChangeView::Room { room, name, created_by } => {
            let row = RoomRowView { room, name, created_by };
            assert(after.rooms.drop_last() =~= view.rooms);
            assert forall|r: RoomId, user: UserId| #[trigger]
                after.subscribers.contains((r, user)) implies room_known(after.rooms, r) by {
                room_stays_known(view, row, r);
            }
            assert forall|i: int| 0 <= i < after.events.len() implies room_known(
                after.rooms,
                (#[trigger] after.events[i]).room,
            ) by {
                assert(room_known(view.rooms, view.events[i].room));
                room_stays_known(view, row, view.events[i].room);
            }
            assert forall|user: UserId| #[trigger]
                rooms_created(after.rooms, user) <= MAX_ROOMS_PER_CREATOR by {
                assert(rooms_created(view.rooms, user) <= MAX_ROOMS_PER_CREATOR);
            }
        },
        ChangeView::Package { user, package } => {
            assert(after.packages.drop_last() =~= view.packages);
            assert forall|u: UserId| #[trigger]
                packages_waiting(after.packages, u) <= MAX_WAITING_PACKAGES by {
                assert(packages_waiting(view.packages, u) <= MAX_WAITING_PACKAGES);
            }
        },
        ChangeView::PackageTaken { user } => {
            let at = first_package(view.packages, user) as int;
            assert forall|u: UserId| #[trigger]
                packages_waiting(after.packages, u) <= MAX_WAITING_PACKAGES by {
                assert(packages_waiting(view.packages, u) <= MAX_WAITING_PACKAGES);
                waiting_after_removal(view.packages, at, u);
            }
        },
        ChangeView::Event { room, sequence, id, sender, record } => {
            assert forall|i: int| 0 <= i < after.events.len() implies (
            #[trigger] after.events[i]).sequence == room_head(
                after.events.take(i),
                after.events[i].room,
            ) + 1 by {
                if i < view.events.len() {
                    assert(after.events.take(i) =~= view.events.take(i));
                    assert(after.events[i] == view.events[i]);
                } else {
                    assert(after.events.take(i) =~= view.events);
                }
            }
            assert forall|i: int| 0 <= i < after.events.len() implies room_known(
                after.rooms,
                (#[trigger] after.events[i]).room,
            ) by {
                if i < view.events.len() {
                    assert(room_known(view.rooms, view.events[i].room));
                }
            }
        },
        ChangeView::Request { user, id, hash, response } => {
            assert forall|key: (UserId, MessageId)| #[trigger]
                after.requests.contains_key(key) implies request_row_sound(after.requests[key]) by {
                if key != (user, id) {
                    assert(view.requests.contains_key(key));
                }
            }
        },
        _ => {},
    }
}

/// And so do changes one after the other.
pub proof fn changes_keep_sound(view: RelayView, changes: Seq<ChangeView>)
    requires
        sound(view),
        all_admitted(view, changes),
        all_fit(view, changes),
    ensures
        sound(all_applied(view, changes)),
    decreases changes.len(),
{
    if changes.len() > 0 {
        changes_keep_sound(view, changes.drop_last());
        change_keeps_sound(all_applied(view, changes.drop_last()), changes.last());
    }
}

proof fn two_fit(view: RelayView, first: ChangeView, second: ChangeView)
    ensures
        all_applied(view, seq![first]) == applied(view, first),
        all_fit(view, seq![first]) == fits(view, first),
        all_fit(view, seq![first, second]) == (fits(view, first) && fits(
            applied(view, first),
            second,
        )),
        all_applied(view, seq![first, second]) == applied(applied(view, first), second),
{
    let none = Seq::<ChangeView>::empty();
    let one = seq![first];
    let two = seq![first, second];
    assert(one.drop_last() =~= none);
    assert(two.drop_last() =~= one);
    assert(all_applied(view, none) == view);
    assert(all_fit(view, none));
    assert(all_applied(view, one) == applied(view, first));
    assert(two.last() == second);
}

proof fn publication_fits(view: RelayView, user: UserId, packages: Seq<Seq<u8>>, count: nat)
    requires
        count <= packages.len(),
        packages_valid(packages),
        packages_waiting(view.packages, user) + packages.len() <= MAX_WAITING_PACKAGES,
    ensures
        all_fit(
            view,
            Seq::new(count, |i: int| ChangeView::Package { user, package: packages[i] }),
        ),
        packages_waiting(
            all_applied(
                view,
                Seq::new(count, |i: int| ChangeView::Package { user, package: packages[i] }),
            ).packages,
            user,
        ) == packages_waiting(view.packages, user) + count,
    decreases count,
{
    let changes = Seq::new(count, |i: int| ChangeView::Package { user, package: packages[i] });
    if count > 0 {
        publication_fits(view, user, packages, (count - 1) as nat);
        let before = Seq::new(
            (count - 1) as nat,
            |i: int| ChangeView::Package { user, package: packages[i] },
        );
        assert(changes.drop_last() =~= before);
        let tables = all_applied(view, before);
        let after = applied(tables, changes.last());
        assert(after.packages.drop_last() =~= tables.packages);
        assert(packages[count - 1].len() > 0);
    }
}

/// Where a known room stands.
pub proof fn first_room_known(rooms: Seq<RoomRowView>, room: RoomId)
    requires
        room_known(rooms, room),
    ensures
        first_room(rooms, room) < rooms.len(),
        rooms[first_room(rooms, room) as int].room == room,
    decreases rooms.len(),
{
    let i = choose|i: int| 0 <= i < rooms.len() && (#[trigger] rooms[i]).room == room;
    if rooms[0].room != room {
        assert(rooms.skip(1)[i - 1].room == room);
        first_room_known(rooms.skip(1), room);
    }
}

/// A valid operation is within the limits of the wire.
pub proof fn operation_bounded(event: EventView)
    requires
        operation_valid(event.operation),
    ensures
        Event::bounded(event),
        Event::encoded(event).len() <= MAX_PAYLOAD - 100,
        decoded::<Event>(Event::encoded(event)) == Ok::<
            EventView,
            crate::protocol::DecodeMessageError,
        >(event),
{
    crate::sizes::event_size(event);
    crate::protocol::message_round_trip::<Event>(event);
}

/// A waiting welcome is within the limits of the wire.
pub proof fn welcome_bounded(delivery: WelcomeDeliveryView)
    requires
        delivery.room_name.len() <= MAX_ROOM_NAME_CHARS,
        0 < delivery.attachment.body.len() <= MAX_MLS_BLOB_BYTES,
    ensures
        WelcomeDelivery::bounded(delivery),
        WelcomeDelivery::encoded(delivery).len() <= PAGE_BYTES,
        decoded::<WelcomeDelivery>(WelcomeDelivery::encoded(delivery)) == Ok::<
            WelcomeDeliveryView,
            crate::protocol::DecodeMessageError,
        >(delivery),
{
    crate::sizes::delivery_size(delivery);
    crate::sizes::name_size(delivery.room_name);
    crate::protocol::message_round_trip::<WelcomeDelivery>(delivery);
}

#[verifier::rlimit(30)]
proof fn extension_fits(view: RelayView, user: UserId, id: MessageId, operation: AppendView)
    requires
        sound(view),
        extension(view, user, id, operation) is Ok,
    ensures
        all_fit(view, extension(view, user, id, operation)->Ok_0.1),
{
    let changes = extension(view, user, id, operation)->Ok_0.1;
    if changes.len() > 0 {
        let event = EventView { id, sender: user, operation };
        let more = welcoming(view, user, id, operation)->Ok_0;
        let first = changes[0];
        let row = EventRowView {
            room: operation.room,
            sequence: (operation.parent + 1) as u64,
            id,
            sender: user,
            record: Event::encoded(event),
        };
        assert(holds_event(row, event));
        assert(view.subscribers.contains((operation.room, user)));
        assert(room_known(view.rooms, operation.room));
        two_fit(view, first, first);
        assert(fits(view, first));
        if more.len() == 0 {
            assert(changes =~= seq![first]);
        } else {
            let attachment = operation.welcome->Some_0;
            first_room_known(view.rooms, operation.room);
            let name = view.rooms[first_room(view.rooms, operation.room) as int].name;
            let delivery = waiting_welcome(name, user, id, operation, attachment);
            let waiting = more[0];
            let member = more[1];
            assert(holds_welcome(
                WelcomeRowView {
                    cursor: waiting->Welcome_cursor,
                    recipient: attachment.recipient,
                    record: WelcomeDelivery::encoded(delivery),
                },
                delivery,
            ));
            two_fit(view, first, waiting);
            let two = seq![first, waiting];
            assert(changes =~= seq![first, waiting, member]);
            assert(changes.drop_last() =~= two);
        }
    }
}

proof fn execution_fits(
    view: RelayView,
    user: UserId,
    id: MessageId,
    request: RequestView,
    now: i64,
    fresh: Option<RoomId>,
)
    requires
        sound(view),
        execution(view, user, id, request, now, fresh) is Ok,
    ensures
        all_fit(view, execution(view, user, id, request, now, fresh)->Ok_0.1),
{
    let changes = execution(view, user, id, request, now, fresh)->Ok_0.1;
    match request {
        RequestView::AppendRoomOperation(operation) => {
            extension_fits(view, user, id, operation);
        },
        RequestView::PublishKeyPackages { packages } => {
            if changes.len() > 0 {
                publication_fits(view, user, packages, packages.len());
            }
        },
        RequestView::CreateRoom { name } => {
            if changes.len() > 0 {
                let room = fresh->Some_0;
                two_fit(view, changes[0], changes[1]);
                assert(changes =~= seq![changes[0], changes[1]]);
                let after = applied(view, changes[0]);
                assert(after.rooms[view.rooms.len() as int].room == room);
                assert(room_known(after.rooms, room));
            }
        },
        RequestView::ReserveKeyPackage { .. } => {
            if changes.len() > 0 {
                two_fit(view, changes[0], changes[1]);
                assert(changes =~= seq![changes[0], changes[1]]);
            }
        },
        RequestView::SetFetchGrant { .. } => {
            two_fit(view, changes[0], changes[0]);
            assert(changes =~= seq![changes[0]]);
        },
        RequestView::Acknowledge { events, welcomes } => {
            crate::relay::service::confirmed_changes_nothing(view, user, welcomes);
        },
        _ => {},
    }
}

proof fn extension_bounded(view: RelayView, user: UserId, id: MessageId, operation: AppendView)
    ensures
        extension(view, user, id, operation) matches Ok((response, _)) ==> Response::bounded(
            response,
        ) && Response::encoded(response).len() + 17 <= MAX_PAYLOAD,
{
    if let Ok((response, _)) = extension(view, user, id, operation) {
        match response {
            ResponseView::AppendAccepted { event } => {
                operation_bounded(event);
            },
            ResponseView::HeadConflict { room, head } => {
                room.determined_by_bytes();
                crate::sizes::u64_size(head);
            },
            _ => {},
        }
    }
}

proof fn reservation_bounded(view: RelayView, user: UserId, recipient: UserId, now: i64)
    requires
        sound(view),
    ensures
        crate::relay::writes::reservation(view, user, recipient, now) matches Ok((response, _))
            ==> Response::bounded(response) && Response::encoded(response).len() + 17
            <= MAX_PAYLOAD,
{
    if let Ok((response, _)) = crate::relay::writes::reservation(view, user, recipient, now) {
        match response {
            ResponseView::KeyPackage { package, .. } => {
                let at = first_package(view.packages, recipient) as int;
                assert(view.packages[at].package.len() <= MAX_KEY_PACKAGE_BYTES);
                crate::sizes::body_size(package);
                recipient.determined_by_bytes();
            },
            _ => {},
        }
    }
}

/// A kept answer is within the limits of the wire.
pub proof fn kept_answer_bounded(
    view: RelayView,
    user: UserId,
    id: MessageId,
    request: RequestView,
    now: i64,
    fresh: Option<RoomId>,
)
    requires
        sound(view),
        !reads_only(request),
        execution(view, user, id, request, now, fresh) is Ok,
    ensures
        Response::bounded(execution(view, user, id, request, now, fresh)->Ok_0.0),
        Response::encoded(execution(view, user, id, request, now, fresh)->Ok_0.0).len() + 17
            <= MAX_PAYLOAD,
{
    let response = execution(view, user, id, request, now, fresh)->Ok_0.0;
    match request {
        RequestView::AppendRoomOperation(operation) => {
            extension_bounded(view, user, id, operation);
        },
        RequestView::ReserveKeyPackage { recipient } => {
            reservation_bounded(view, user, recipient, now);
        },
        RequestView::Acknowledge { events, welcomes } => {
            receipt_bounded(view, user, welcomes);
        },
        RequestView::CreateRoom { .. } => {
            match response {
                ResponseView::RoomCreated { room } => {
                    room.determined_by_bytes();
                },
                _ => {},
            }
        },
        RequestView::PublishKeyPackages { .. } => {
            match response {
                ResponseView::KeyPackagesPublished { count } => {
                    crate::sizes::u64_size(count);
                },
                _ => {},
            }
        },
        RequestView::SetFetchGrant { .. } => {
            assert(response is FetchGrantSet);
        },
        _ => {},
    }
}

proof fn receipt_bounded(view: RelayView, user: UserId, welcomes: Seq<u64>)
    ensures
        crate::relay::reads::welcomes_confirmed(view, user, welcomes) matches Ok((response, _))
            ==> Response::bounded(response) && Response::encoded(response).len() + 17
            <= MAX_PAYLOAD,
    decreases welcomes.len(),
{
    if welcomes.len() > 0 {
        receipt_bounded(view, user, welcomes.skip(1));
    }
}

/// A room without events has its head at zero.
proof fn head_without_events(events: Seq<EventRowView>, room: RoomId)
    requires
        forall|i: int| 0 <= i < events.len() ==> (#[trigger] events[i]).room != room,
    ensures
        room_head(events, room) == 0,
    decreases events.len(),
{
    if events.len() > 0 {
        let before = events.drop_last();
        assert forall|i: int| 0 <= i < before.len() implies (#[trigger] before[i]).room != room by {
            assert(before[i] == events[i]);
        }
        head_without_events(before, room);
        assert(events[events.len() - 1].room != room);
    }
}

/// A room that is created is known under its name, starts without events, and its
/// creator receives what comes into it, and nobody else does.
pub proof fn created_room_is_empty(
    view: RelayView,
    user: UserId,
    name: Seq<char>,
    room: RoomId,
)
    requires
        sound(view),
        creation(view, user, name, Some(room)) matches Ok((response, _)) && response
            is RoomCreated,
    ensures
        ({
            let (response, changes) = creation(view, user, name, Some(room))->Ok_0;
            let after = all_applied(view, changes);
            &&& response == (ResponseView::RoomCreated { room })
            &&& !room_known(view.rooms, room)
            &&& room_known(after.rooms, room)
            &&& after.rooms == view.rooms.push(
                RoomRowView { room, name: normalized_name(name)->Ok_0, created_by: user },
            )
            &&& room_head(after.events, room) == 0
            &&& events_behind(after.events, room, 0) == Seq::<EventRowView>::empty()
            &&& forall|other: UserId| #[trigger]
                after.subscribers.contains((room, other)) <==> other == user
        }),
{
    let changes = creation(view, user, name, Some(room))->Ok_0.1;
    let after = all_applied(view, changes);
    two_fit(view, changes[0], changes[1]);
    assert(changes =~= seq![changes[0], changes[1]]);
    assert(after.rooms[view.rooms.len() as int].room == room);
    assert(after.events == view.events);
    assert forall|i: int| 0 <= i < view.events.len() implies (#[trigger] view.events[i]).room
        != room by {
        assert(room_known(view.rooms, view.events[i].room));
    }
    head_without_events(view.events, room);
    let start: u64 = 0;
    let wanted = |row: EventRowView| row.room == room && row.sequence > start;
    let behind = events_behind(view.events, room, start);
    crate::sequences::filter_members(view.events, wanted);
    if behind.len() > 0 {
        assert(wanted(behind[0]));
        let i = view.events.index_of(behind[0]);
        assert(view.events[i] == behind[0]);
    }
}

/// Every delivery keeps the tables sound.
pub proof fn delivery_keeps_sound(
    view: RelayView,
    limits: StorageLimits,
    facts: StorageFacts,
    user: UserId,
    id: MessageId,
    request: RequestView,
    now: i64,
    fresh: Option<RoomId>,
)
    requires
        sound(view),
    ensures
        outcome(view, limits, facts, user, id, request, now, fresh) matches Ok(done) ==> sound(
            all_applied(view, done.changes),
        ),
{
    let result = outcome(view, limits, facts, user, id, request, now, fresh);
    outcome_admitted(view, limits, facts, user, id, request, now, fresh);
    if let Ok(done) = result {
        if done.changes.len() > 0 {
            let (response, changes) = execution(view, user, id, request, now, fresh)->Ok_0;
            execution_fits(view, user, id, request, now, fresh);
            let charged = with_charges(changes, user, request);
            if !reads_only(request) && !passing(response) {
                kept_answer_bounded(view, user, id, request, now, fresh);
                let bytes = crate::relay::limits::charge(Request::encoded(request).len()) as u64;
                let sender = changes.push(ChangeView::SenderUsage { user, bytes });
                assert(sender.drop_last() =~= changes);
                match request {
                    RequestView::Acknowledge { .. } => {
                        assert(all_fit(view, charged));
                    },
                    RequestView::AppendRoomOperation(operation) => {
                        assert(all_fit(view, sender));
                        assert(charged.drop_last() =~= sender);
                        assert(all_fit(view, charged));
                    },
                    _ => {
                        assert(all_fit(view, sender));
                        assert(charged == sender);
                    },
                }
                assert(done.changes.drop_last() =~= charged);
                let row = RequestRowView {
                    hash: crate::transcripts::request_hash(request),
                    response: Response::encoded(response),
                };
                assert(holds_response(row, response));
                assert(all_fit(view, done.changes));
            }
            changes_keep_sound(view, done.changes);
        } else {
            assert(all_applied(view, done.changes) == view);
        }
    }
}

} // verus!
