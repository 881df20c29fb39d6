//! What a client reads of a relay, and what its receipts leave.
use vstd::prelude::*;
use crate::delivery::{Event, EventView, RoomHeadView, WelcomeDelivery, WelcomeDeliveryView};
use crate::ids::{MessageId, RoomId, UserId};
use crate::order::room_order;
use crate::protocol::decoded;
use crate::relay::effects::{
    after, answer, first_room_stands, head_is_newest, newest_at, Delivery,
};
use crate::relay::laws::room_page_progress;
use crate::relay::pages::{
    index_is_sorted, short_index_is_whole, welcome_page_progress,
};
use crate::relay::reads::{
    event_sizes, events_behind, page_length, rooms_behind, welcome_page_length,
    welcomes_behind,
};
use crate::relay::service::StateView;
use crate::relay::sound::{contiguous, holds_event, sound};
use crate::relay::tables::{
    all_applied, room_head, ChangeView, EventRowView, RelayView, RequestRowView, StorageError,
    WelcomeRowView,
};
use crate::requests::{Rejection, Request, RequestView, Response, ResponseView};
use crate::wire::Wire;

verus! {

/// The rows of a room's events behind a position.
pub open spec fn later_events(events: Seq<EventRowView>, room: RoomId, after: u64) -> Seq<
    EventRowView,
> {
    events.filter(|row: EventRowView| row.room == room && row.sequence > after)
}

/// The rows of a user's welcomes behind a cursor.
pub open spec fn later_welcomes(welcomes: Seq<WelcomeRowView>, user: UserId, after: u64) -> Seq<
    WelcomeRowView,
> {
    welcomes.filter(|row: WelcomeRowView| row.recipient == user && row.cursor > after)
}

/// The bytes of the first records of events.
pub open spec fn event_bytes(rows: Seq<EventRowView>, count: int) -> int
    decreases count,
{
    if count <= 0 {
        0
    } else {
        event_bytes(rows, count - 1) + rows[count - 1].record.len()
    }
}

proof fn positions_follow(events: Seq<EventRowView>, room: RoomId, after: u64)
    requires
        contiguous(events),
    ensures
        ({
            let head = room_head(events, room);
            let later = later_events(events, room, after);
            &&& later.len() == if head > after {
                head - after
            } else {
                0
            }
            &&& forall|i: int|
                0 <= i < later.len() ==> (#[trigger] later[i]).sequence == after + 1 + i
        }),
    decreases events.len(),
{
    reveal(Seq::filter);
    if events.len() > 0 {
        let fewer = events.drop_last();
        assert forall|i: int| 0 <= i < fewer.len() implies (#[trigger] fewer[i]).sequence
            == room_head(fewer.take(i), fewer[i].room) + 1 by {
            assert(fewer[i] == events[i]);
            assert(fewer.take(i) =~= events.take(i));
        }
        positions_follow(fewer, room, after);
        let last = events[events.len() - 1];
        assert(events.take(events.len() - 1) =~= fewer);
        assert(last.sequence == room_head(fewer, last.room) + 1);
    }
}

proof fn page_is_full(rows: Seq<EventRowView>, start: int)
    requires
        0 <= start <= rows.len(),
        start <= 100,
        event_bytes(rows, start) <= 786336,
    ensures
        ({
            let length = start + page_length(
                event_sizes(rows.skip(start)),
                start as nat,
                event_bytes(rows, start) as nat,
            );
            &&& start <= length <= rows.len()
            &&& length <= 100
            &&& event_bytes(rows, length) <= 786336
            &&& length < rows.len() ==> length == 100 || event_bytes(rows, length + 1) > 786336
        }),
    decreases rows.len() - start,
{
    let sizes = event_sizes(rows.skip(start));
    bytes_positive(rows, start);
    if start < rows.len() && start < 100 && event_bytes(rows, start + 1) <= 786336 {
        page_is_full(rows, start + 1);
        assert(sizes.skip(1) =~= event_sizes(rows.skip(start + 1)));
    }
}

proof fn bytes_positive(rows: Seq<EventRowView>, count: int)
    ensures
        event_bytes(rows, count) >= 0,
    decreases count,
{
    if count > 0 {
        bytes_positive(rows, count - 1);
    }
}

/// A read of a room's events: it is refused as invalid exactly where the position cannot
/// be stored, as not allowed exactly where the reader does not subscribe to the room.
/// Otherwise it gives the stored events behind the position, each at the next position
/// and none left out, as many as a page holds; it says that there are more exactly
/// where there are; and nothing changes.
pub proof fn reading_a_room(state: StateView, d: Delivery, room: RoomId, position: u64)
    requires
        sound(state.tables),
        !state.tables.requests.contains_key((d.user, d.id)),
        Request::encoded(d.request).len() <= 786432,
        d.request == (RequestView::FetchRoomEvents { room, after_sequence: position }),
    ensures
        after(state, d).tables == state.tables,
        ({
            let rows = later_events(state.tables.events, room, position);
            let subscribed = state.tables.subscribers.contains((room, d.user));
            match answer(state, d) {
                Ok(ResponseView::Rejected(Rejection::Invalid)) => position
                    > 0x7fff_ffff_ffff_ffff,
                Ok(ResponseView::Rejected(Rejection::Unauthorized)) => position
                    <= 0x7fff_ffff_ffff_ffff && !subscribed,
                Ok(ResponseView::RoomEvents { room: of, after_sequence, events, more }) => {
                    &&& position <= 0x7fff_ffff_ffff_ffff
                    &&& subscribed
                    &&& of == room
                    &&& after_sequence == position
                    &&& events.len() <= rows.len()
                    &&& more == (events.len() < rows.len())
                    &&& forall|i: int|
                        0 <= i < events.len() ==> (#[trigger] events[i]).id == rows[i].id
                            && events[i].sender == rows[i].sender && events[i].operation.room
                            == room && events[i].operation.parent == position + i && decoded::<
                            Event,
                        >(rows[i].record) == Ok::<EventView, crate::protocol::DecodeMessageError>(
                            events[i],
                        )
                    &&& events.len() <= 100
                    &&& event_bytes(rows, events.len() as int) <= 786336
                    &&& more ==> events.len() == 100 || event_bytes(rows, events.len() as int + 1)
                        > 786336
                },
                _ => false,
            }
        }),
{
    let view = state.tables;
    assert(all_applied(view, Seq::<ChangeView>::empty()) == view);
    if position <= 0x7fff_ffff_ffff_ffff && view.subscribers.contains((room, d.user)) {
        room_page_progress(view, d.user, room, position);
        positions_follow(view.events, room, position);
        let rows = later_events(view.events, room, position);
        assert(rows == events_behind(view.events, room, position));
        page_is_full(rows, 0);
        assert(rows.skip(0) =~= rows);
        let (response, _) = crate::relay::reads::room_page(
            view,
            d.user,
            room,
            position,
        )->Ok_0;
        if let ResponseView::RoomEvents { events, .. } = response {
            assert forall|i: int| 0 <= i < events.len() implies (#[trigger] events[i]).id
                == rows[i].id && events[i].sender == rows[i].sender && events[i].operation.room
                == room && events[i].operation.parent == position + i && decoded::<Event>(
                rows[i].record,
            ) == Ok::<EventView, crate::protocol::DecodeMessageError>(events[i]) by {
                assert(holds_event(rows[i], events[i]));
                crate::relay::sound::operation_bounded(events[i]);
                crate::sequences::filter_members(
                    view.events,
                    |row: EventRowView| row.room == room && row.sequence > position,
                );
                assert(rows[i].room == room);
            }
        }
    }
}

/// The bytes of the first records of welcomes.
pub open spec fn welcome_bytes(rows: Seq<WelcomeRowView>, count: int) -> int
    decreases count,
{
    if count <= 0 {
        0
    } else {
        welcome_bytes(rows, count - 1) + rows[count - 1].record.len()
    }
}

proof fn welcome_bytes_positive(rows: Seq<WelcomeRowView>, count: int)
    ensures
        welcome_bytes(rows, count) >= 0,
    decreases count,
{
    if count > 0 {
        welcome_bytes_positive(rows, count - 1);
    }
}

proof fn welcome_page_is_full(rows: Seq<WelcomeRowView>, room: nat, start: int, sent: nat)
    requires
        0 <= start <= rows.len(),
        start <= 100,
        room >= 786402,
        sent <= welcome_bytes(rows, start) + 9 * start,
    ensures
        ({
            let length = start + welcome_page_length(
                rows.skip(start),
                room,
                start as nat,
                welcome_bytes(rows, start) as nat,
                sent,
            );
            length < rows.len() ==> length >= 100 || welcome_bytes(rows, length + 1) + 9 * (length
                + 1) > 786336
        }),
    decreases rows.len() - start,
{
    let left = rows.skip(start);
    welcome_bytes_positive(rows, start);
    if start < rows.len() {
        let row = rows[start];
        assert(left[0] == row);
        crate::sizes::u64_size(row.cursor);
        let more = crate::relay::reads::sent_size(row);
        assert(more <= row.record.len() + 9);
        if !(start >= 100 || welcome_bytes(rows, start) + row.record.len() > 786336 || sent + more
            > room) {
            welcome_page_is_full(rows, room, start + 1, sent + more);
            assert(left.skip(1) =~= rows.skip(start + 1));
        }
    }
}

proof fn waiting_welcome_is_readable(view: RelayView, user: UserId, cursor: u64, i: int)
    requires
        sound(view),
        0 <= i < later_welcomes(view.welcomes, user, cursor).len(),
    ensures
        decoded::<WelcomeDelivery>(
            later_welcomes(view.welcomes, user, cursor)[i].record,
        ) matches Ok(delivery) && delivery.cursor == 0,
{
    let rows = later_welcomes(view.welcomes, user, cursor);
    crate::sequences::filter_members(
        view.welcomes,
        |row: WelcomeRowView| row.recipient == user && row.cursor > cursor,
    );
    assert(view.welcomes.contains(rows[i]));
    let k = choose|k: int| 0 <= k < view.welcomes.len() && view.welcomes[k] == rows[i];
    assert(crate::relay::sound::welcome_row_sound(view.welcomes[k]));
    let delivery = choose|delivery: WelcomeDeliveryView| #[trigger]
        crate::relay::sound::holds_welcome(rows[i], delivery);
    crate::relay::sound::welcome_bounded(delivery);
}

/// A read of welcomes: it is refused as invalid exactly where the cursor cannot be stored.
/// Otherwise it gives the reader's stored welcomes behind the cursor in their order,
/// each under its own cursor, at most a hundred, and at least one where there is one, and
/// fewer than a hundred only where a message could not hold one more; it says that there
/// are more exactly where there are; and nothing changes.
#[verifier::rlimit(30)]
#[verifier::spinoff_prover]
pub proof fn reading_welcomes(state: StateView, d: Delivery, cursor: u64)
    requires
        sound(state.tables),
        !state.tables.requests.contains_key((d.user, d.id)),
        Request::encoded(d.request).len() <= 786432,
        d.request == (RequestView::FetchWelcomes { after_cursor: cursor }),
    ensures
        after(state, d).tables == state.tables,
        ({
            let rows = later_welcomes(state.tables.welcomes, d.user, cursor);
            match answer(state, d) {
                Ok(ResponseView::Rejected(Rejection::Invalid)) => cursor > 0x7fff_ffff_ffff_ffff,
                Ok(ResponseView::Welcomes { after_cursor, welcomes, more }) => {
                    &&& cursor <= 0x7fff_ffff_ffff_ffff
                    &&& after_cursor == cursor
                    &&& welcomes.len() <= rows.len()
                    &&& welcomes.len() <= 100
                    &&& rows.len() > 0 ==> welcomes.len() > 0
                    &&& more == (welcomes.len() < rows.len())
                    &&& more ==> welcomes.len() == 100 || welcome_bytes(
                        rows,
                        welcomes.len() as int + 1,
                    ) + 9 * (welcomes.len() + 1) > 786336
                    &&& forall|i: int|
                        0 <= i < welcomes.len() ==> (#[trigger] welcomes[i]).cursor
                            == rows[i].cursor && decoded::<WelcomeDelivery>(rows[i].record) == Ok::<
                            WelcomeDeliveryView,
                            crate::protocol::DecodeMessageError,
                        >(WelcomeDeliveryView { cursor: 0, ..welcomes[i] })
                },
                _ => false,
            }
        }),
{
    let view = state.tables;
    assert(all_applied(view, Seq::<ChangeView>::empty()) == view);
    if cursor <= 0x7fff_ffff_ffff_ffff {
        welcome_page_progress(view, d.user, cursor);
        let rows = later_welcomes(view.welcomes, d.user, cursor);
        assert(rows == welcomes_behind(view.welcomes, d.user, cursor));
        crate::sizes::u64_size(cursor);
        assert(rows.skip(0) =~= rows);
        welcome_page_is_full(rows, crate::relay::reads::welcome_room(cursor), 0, 0);
        crate::relay::pages::pages_are_short(view, d.user, RoomId::of(Seq::empty()), cursor);
        let (response, _) = crate::relay::reads::welcome_page(view, d.user, cursor)->Ok_0;
        if let ResponseView::Welcomes { welcomes, .. } = response {
            assert forall|i: int| 0 <= i < welcomes.len() implies (#[trigger] welcomes[i]).cursor
                == rows[i].cursor && decoded::<WelcomeDelivery>(rows[i].record) == Ok::<
                WelcomeDeliveryView,
                crate::protocol::DecodeMessageError,
            >(WelcomeDeliveryView { cursor: 0, ..welcomes[i] }) by {
                waiting_welcome_is_readable(view, d.user, cursor, i);
            }
        }
    }
}

/// Whether a user can list a room behind another: it is stored, the user subscribes to
/// it, and it comes later in the order of rooms.
pub open spec fn can_list(
    view: RelayView,
    user: UserId,
    behind: Option<RoomId>,
    room: RoomId,
) -> bool {
    &&& exists|i: int| 0 <= i < view.rooms.len() && (#[trigger] view.rooms[i]).room == room
    &&& view.subscribers.contains((room, user))
    &&& behind matches Some(other) ==> room_order(other) < room_order(room)
}

/// A read of the index gives the first hundred rooms, in the order of rooms, that the
/// reader subscribes to and that come behind the given one, each under its stored name
/// and with the position of its newest event; it leaves out none before its last, and
/// says that there are more exactly where some come behind it; and nothing changes.
pub proof fn reading_the_index(state: StateView, d: Delivery, behind: Option<RoomId>)
    requires
        sound(state.tables),
        !state.tables.requests.contains_key((d.user, d.id)),
        Request::encoded(d.request).len() <= 786432,
        d.request == (RequestView::SyncIndex { after_room: behind }),
    ensures
        after(state, d).tables == state.tables,
        ({
            let view = state.tables;
            match answer(state, d) {
                Ok(ResponseView::SyncIndex { rooms, more }) => {
                    &&& rooms.len() <= 100
                    &&& more ==> rooms.len() == 100
                    &&& forall|i: int|
                        0 <= i < rooms.len() ==> can_list(
                            view,
                            d.user,
                            behind,
                            (#[trigger] rooms[i]).room,
                        ) && newest_at(view.events, rooms[i].room, rooms[i].sequence as int)
                            && named(view, rooms[i])
                    &&& forall|i: int, j: int|
                        0 <= i < j < rooms.len() ==> room_order((#[trigger] rooms[i]).room)
                            < room_order((#[trigger] rooms[j]).room)
                    &&& forall|room: RoomId| #[trigger]
                        can_list(view, d.user, behind, room) ==> is_on(rooms, room) || (more
                            && room_order(rooms.last().room) < room_order(room))
                    &&& more ==> exists|room: RoomId| #[trigger]
                        can_list(view, d.user, behind, room) && room_order(rooms.last().room)
                            < room_order(room)
                },
                _ => false,
            }
        }),
{
    let view = state.tables;
    assert(all_applied(view, Seq::<ChangeView>::empty()) == view);
    let list = rooms_behind(view, d.user, behind, 101);
    index_is_sorted(view, d.user, behind, 101);
    let (response, _) = crate::relay::reads::index_page(view, d.user, behind)->Ok_0;
    let rooms = response->SyncIndex_rooms;
    let more = response->SyncIndex_more;
    assert(forall|i: int| 0 <= i < rooms.len() ==> (#[trigger] rooms[i]).room == list[i]);
    assert forall|i: int| 0 <= i < rooms.len() implies can_list(
        view,
        d.user,
        behind,
        (#[trigger] rooms[i]).room,
    ) && newest_at(view.events, rooms[i].room, rooms[i].sequence as int) && named(
        view,
        rooms[i],
    ) by {
        assert(crate::relay::reads::listed(view, d.user, behind, list[i]));
        head_is_newest(view, list[i]);
        first_room_stands(view.rooms, list[i]);
        assert(rooms[i] == crate::relay::reads::room_entry(view, list[i]));
    }
    assert forall|i: int, j: int| 0 <= i < j < rooms.len() implies room_order(
        (#[trigger] rooms[i]).room,
    ) < room_order((#[trigger] rooms[j]).room) by {
        assert(room_order(list[i]) < room_order(list[j]));
    }
    assert forall|room: RoomId| #[trigger] can_list(view, d.user, behind, room) implies is_on(
        rooms,
        room,
    ) || (more && room_order(rooms.last().room) < room_order(room)) by {
        assert(crate::relay::reads::listed(view, d.user, behind, room));
        left_out_comes_later(view, d.user, behind, 101, room);
        if list.contains(room) {
            let k = list.index_of(room);
            if k < rooms.len() {
                assert(rooms[k].room == room);
            } else {
                assert(room_order(list[99]) < room_order(list[k]));
            }
        } else {
            assert(room_order(list[99]) < room_order(list[100]));
        }
    }
    if more {
        assert(crate::relay::reads::listed(view, d.user, behind, list[100]));
        assert(can_list(view, d.user, behind, list[100]));
        assert(room_order(list[99]) < room_order(list[100]));
    }
}

/// Whether a room is on a page of the index.
pub open spec fn is_on(rooms: Seq<RoomHeadView>, room: RoomId) -> bool {
    exists|i: int| 0 <= i < rooms.len() && (#[trigger] rooms[i]).room == room
}

/// Whether a room stands on a page under the name that is stored for it.
pub open spec fn named(view: RelayView, head: RoomHeadView) -> bool {
    forall|i: int|
        0 <= i < view.rooms.len() && (#[trigger] view.rooms[i]).room == head.room ==> head.name
            == view.rooms[i].name
}

proof fn left_out_comes_later(
    view: RelayView,
    user: UserId,
    behind: Option<RoomId>,
    count: nat,
    room: RoomId,
)
    requires
        crate::relay::reads::listed(view, user, behind, room),
        count > 0,
    ensures
        ({
            let list = rooms_behind(view, user, behind, count);
            list.contains(room) || (list.len() == count && room_order(list.last()) < room_order(
                room,
            ))
        }),
    decreases count,
{
    let list = rooms_behind(view, user, behind, count);
    index_is_sorted(view, user, behind, count);
    if list.len() < count {
        short_index_is_whole(view, user, behind, count, room);
    } else {
        let first = choose|room: RoomId|
            crate::relay::reads::next_listed(view, user, behind, room);
        let rest = rooms_behind(view, user, Some(first), (count - 1) as nat);
        assert(list =~= seq![first] + rest);
        if room == first {
            assert(list[0] == room);
        } else {
            assert(room_order(first) <= room_order(room));
            if room_order(first) == room_order(room) {
                crate::order::room_order_injective(first, room);
            }
            if count > 1 {
                left_out_comes_later(view, user, Some(first), (count - 1) as nat, room);
                if rest.contains(room) {
                    let k = rest.index_of(room);
                    assert(list[k + 1] == room);
                } else {
                    assert(list.last() == rest.last());
                }
            } else {
                assert(list.last() == first);
            }
        }
    }
}

/// Whether a user may confirm these: an event of a room that the user subscribes to, or a
/// welcome for the user.
pub open spec fn may_confirm(
    view: RelayView,
    user: UserId,
    events: Seq<MessageId>,
    welcomes: Seq<u64>,
) -> bool {
    &&& forall|k: int|
        0 <= k < events.len() ==> exists|i: int|
            0 <= i < view.events.len() && (#[trigger] view.events[i]).id == #[trigger] events[k]
                && view.subscribers.contains((view.events[i].room, user))
    &&& forall|k: int|
        0 <= k < welcomes.len() ==> exists|i: int|
            0 <= i < view.welcomes.len() && (#[trigger] view.welcomes[i]).cursor
                == #[trigger] welcomes[k] && view.welcomes[i].recipient == user
}

/// A receipt that comes for the first time: it is refused as invalid exactly where it
/// confirms not one thing or does not stand under its own identifier; as not allowed
/// exactly where its sender may not confirm it. Otherwise it is taken: its answer is
/// kept, nothing is charged, and nothing else changes.
pub proof fn taking_a_receipt(
    state: StateView,
    d: Delivery,
    events: Seq<MessageId>,
    welcomes: Seq<u64>,
)
    requires
        !state.tables.requests.contains_key((d.user, d.id)),
        Request::encoded(d.request).len() <= 786432,
        d.request == (RequestView::Acknowledge { events, welcomes }),
        forall|k: int| 0 <= k < welcomes.len() ==> (#[trigger] welcomes[k]) <= 0x7fff_ffff_ffff_ffff,
    ensures
        ({
            let view = state.tables;
            let formed = events.len() + welcomes.len() == 1 && d.id
                == crate::transcripts::receipt_id(d.user, events, welcomes);
            let allowed = may_confirm(view, d.user, events, welcomes);
            match answer(state, d) {
                Ok(ResponseView::Rejected(Rejection::Invalid)) => !formed && after(state, d).tables
                    == view,
                Ok(ResponseView::Rejected(Rejection::Unauthorized)) => formed && !allowed && after(
                    state,
                    d,
                ).tables == view,
                Ok(ResponseView::Acknowledged) => formed && allowed && after(state, d).tables == (
                RelayView {
                    requests: view.requests.insert(
                        (d.user, d.id),
                        RequestRowView {
                            hash: crate::crypto::sha256(Request::encoded(d.request)),
                            response: Response::encoded(ResponseView::Acknowledged),
                        },
                    ),
                    ..view
                }),
                _ => false,
            }
        }),
{
    let view = state.tables;
    let none = Seq::<ChangeView>::empty();
    assert(all_applied(view, none) == view);
    if events.len() + welcomes.len() == 1 {
        if welcomes.len() == 1 {
            assert(welcomes.skip(1) =~= Seq::<u64>::empty());
            assert(crate::relay::reads::welcomes_confirmed(view, d.user, welcomes.skip(1)) == Ok::<
                (ResponseView, Seq<ChangeView>),
                StorageError,
            >((ResponseView::Acknowledged, none)));
            assert(crate::relay::reads::welcome_received(view, d.user, welcomes[0]) == may_confirm(
                view,
                d.user,
                events,
                welcomes,
            ));
        } else {
            assert(crate::relay::reads::event_received(view, d.user, events[0]) == may_confirm(
                view,
                d.user,
                events,
                welcomes,
            ));
        }
        let kept = ChangeView::Request {
            user: d.user,
            id: d.id,
            hash: crate::transcripts::request_hash(d.request),
            response: Response::encoded(ResponseView::Acknowledged),
        };
        assert(none.push(kept).drop_last() =~= none);
    }
}

/// A request under an identifier that its sender used before changes nothing: it gets the
/// kept answer where it is the same request, by the digest of its bytes, and is refused
/// as conflicting where it is another.
pub proof fn asking_again(state: StateView, d: Delivery)
    requires
        state.tables.requests.contains_key((d.user, d.id)),
        Request::encoded(d.request).len() <= 786432,
    ensures
        after(state, d) == state,
        ({
            let kept = state.tables.requests[(d.user, d.id)];
            if kept.hash == crate::crypto::sha256(Request::encoded(d.request)) {
                match decoded::<Response>(kept.response) {
                    Ok(response) => answer(state, d) == Ok::<ResponseView, StorageError>(response),
                    Err(_) => answer(state, d) is Err,
                }
            } else {
                answer(state, d) == Ok::<ResponseView, StorageError>(
                    ResponseView::Rejected(Rejection::RequestConflict),
                )
            }
        }),
{
    assert(all_applied(state.tables, Seq::<ChangeView>::empty()) == state.tables);
}

/// The same request twice in a row gets the same answer twice where the first is one that
/// is kept, and the second changes nothing.
pub proof fn asking_twice_is_asking_once(state: StateView, d: Delivery, later: Delivery)
    requires
        sound(state.tables),
        !state.tables.requests.contains_key((d.user, d.id)),
        after(state, d).tables.requests.contains_key((d.user, d.id)),
        later.user == d.user,
        later.id == d.id,
        later.request == d.request,
    ensures
        answer(state, d) is Ok,
        answer(after(state, d), later) == answer(state, d),
        after(after(state, d), later) == after(state, d),
{
    let view = state.tables;
    let done = crate::relay::effects::delivered(state, d)->Ok_0;
    assert(all_applied(view, Seq::<ChangeView>::empty()) == view);
    let (response, changes) = crate::relay::deliver::execution(
        view,
        d.user,
        d.id,
        d.request,
        d.now,
        d.fresh,
    )->Ok_0;
    crate::relay::service::execution_admitted(view, d.user, d.id, d.request, d.now, d.fresh);
    crate::relay::service::journal_untouched(view, changes);
    assert(done.changes != changes && done.changes.len() > 0);
    crate::relay::sound::kept_answer_bounded(view, d.user, d.id, d.request, d.now, d.fresh);
    crate::protocol::message_round_trip::<Response>(response);
    asking_again(after(state, d), later);
}

/// What is counted: a conflict at the head of a room and a refusal for quota, each once
/// where it is answered to a request that came for the first time, and nothing else.
pub proof fn counting_deliveries(state: StateView, d: Delivery)
    requires
        sound(state.tables),
        !state.tables.requests.contains_key((d.user, d.id)),
    ensures
        ({
            let before = state.metrics;
            let counted = after(state, d).metrics;
            match answer(state, d) {
                Ok(ResponseView::HeadConflict { .. }) => counted == (
                crate::relay::metrics::Metrics {
                    commit_conflicts: counted.commit_conflicts,
                    ..before
                }) && (before.commit_conflicts < u64::MAX ==> counted.commit_conflicts
                    == before.commit_conflicts + 1),
                Ok(ResponseView::Rejected(Rejection::Quota)) => counted == (
                crate::relay::metrics::Metrics {
                    quota_rejections: counted.quota_rejections,
                    ..before
                }) && (before.quota_rejections < u64::MAX ==> counted.quota_rejections
                    == before.quota_rejections + 1),
                _ => counted == before,
            }
        }),
{
}

/// A delivery that is carried out leaves the relay as its delivery does, and gives the
/// answer that it comes to, or its failure.
pub proof fn delivering(
    state: StateView,
    d: Delivery,
    left: StateView,
    result: Result<Response, StorageError>,
)
    requires
        crate::relay::service::is_delivery(
            state,
            left,
            result,
            crate::relay::effects::delivered(state, d),
        ),
    ensures
        left == after(state, d),
        match result {
            Ok(response) => answer(state, d) == Ok::<ResponseView, StorageError>(
                response.deep_view(),
            ),
            Err(error) => answer(state, d) == Err::<ResponseView, StorageError>(error),
        },
        result is Err ==> left == state,
{
}

} // verus!
