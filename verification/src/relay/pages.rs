//! What clients can rely on about pages: order, progress and size.
use vstd::prelude::*;
use crate::order::room_order;
use crate::collections::items_encoded;
use crate::delivery::{
    Event, EventView, RoomHead, RoomHeadView, WelcomeDelivery, WelcomeDeliveryView, MAX_PAYLOAD,
    PAGE_SIZE,
};
use crate::ids::{MessageId, RoomId, UserId};
use crate::messages::{RelayMessage, RelayMessageView};
use crate::protocol::decoded;
use crate::relay::deliver::outcome;
use crate::relay::laws::room_page_progress;
use crate::relay::limits::{StorageFacts, StorageLimits};
use crate::relay::reads::{
    event_sizes, events_behind, index_page, listed, next_listed, page_length_bounds, room_page,
    rooms_behind, sent_sizes, sum, welcome_page, welcome_page_bounds, welcome_page_length,
    welcome_read, welcome_room, welcomes_behind, welcomes_read, PAGE_BYTES,
};
use crate::relay::sound::{
    first_room_known, holds_event, holds_response, holds_welcome, kept_answer_bounded,
    request_row_sound, sound, welcome_bounded, welcome_row_sound,
};
use crate::relay::tables::{in_order, EventRowView, RelayView, WelcomeRowView, MAX_NUMBER};
use crate::requests::{Rejection, RequestView, Response, ResponseView};
use crate::sequences::{filter_members, filter_of_filter, filter_suffix};
use crate::varint::varint;
use crate::wire::Wire;

verus! {

/// Welcomes behind a cursor come in the order of their cursors, and are exactly
/// those of the recipient.
pub proof fn welcomes_behind_sorted(view: RelayView, user: UserId, after: u64)
    requires
        in_order(view),
    ensures
        forall|i: int, j: int|
            0 <= i < j < welcomes_behind(view.welcomes, user, after).len() ==> (
            #[trigger] welcomes_behind(view.welcomes, user, after)[i]).cursor < (
            #[trigger] welcomes_behind(view.welcomes, user, after)[j]).cursor,
        forall|i: int|
            0 <= i < welcomes_behind(view.welcomes, user, after).len() ==> (
            #[trigger] welcomes_behind(view.welcomes, user, after)[i]).recipient == user
                && welcomes_behind(view.welcomes, user, after)[i].cursor > after
                && view.welcomes.contains(welcomes_behind(view.welcomes, user, after)[i]),
{
    let wanted = |row: WelcomeRowView| row.recipient == user && row.cursor > after;
    filtered_cursors(view.welcomes, wanted);
    filter_members(view.welcomes, wanted);
}

proof fn filtered_cursors(welcomes: Seq<WelcomeRowView>, wanted: spec_fn(WelcomeRowView) -> bool)
    requires
        forall|i: int, j: int|
            0 <= i < j < welcomes.len() ==> (#[trigger] welcomes[i]).cursor < (
            #[trigger] welcomes[j]).cursor,
    ensures
        forall|i: int, j: int|
            0 <= i < j < welcomes.filter(wanted).len() ==> (
            #[trigger] welcomes.filter(wanted)[i]).cursor < (
            #[trigger] welcomes.filter(wanted)[j]).cursor,
    decreases welcomes.len(),
{
    reveal(Seq::filter);
    if welcomes.len() > 0 {
        let before = welcomes.drop_last();
        filtered_cursors(before, wanted);
        filter_members(before, wanted);
        let kept = before.filter(wanted);
        if wanted(welcomes.last()) {
            assert forall|i: int| 0 <= i < kept.len() implies (#[trigger] kept[i]).cursor
                < welcomes.last().cursor by {
                assert(before.contains(kept[i]));
                let k = choose|k: int| 0 <= k < before.len() && before[k] == kept[i];
                assert(welcomes[k] == before[k]);
                assert(welcomes[welcomes.len() - 1] == welcomes.last());
            }
        }
    }
}

/// Every welcome row of sound tables is read as the welcome that waits, and fits
/// a page.
pub proof fn read_gives_what_waits(view: RelayView, row: WelcomeRowView)
    requires
        sound(view),
        view.welcomes.contains(row),
    ensures
        decoded::<WelcomeDelivery>(row.record) is Ok,
        holds_welcome(row, decoded::<WelcomeDelivery>(row.record)->Ok_0),
        row.record.len() <= PAGE_BYTES,
{
    let k = choose|k: int| 0 <= k < view.welcomes.len() && view.welcomes[k] == row;
    assert(welcome_row_sound(view.welcomes[k]));
    let delivery = choose|delivery: WelcomeDeliveryView| #[trigger] holds_welcome(row, delivery);
    welcome_bounded(delivery);
}

proof fn welcomes_readable(view: RelayView, user: UserId, after: u64)
    requires
        sound(view),
    ensures
        forall|i: int|
            0 <= i < welcomes_behind(view.welcomes, user, after).len() ==> {
                let row = #[trigger] welcomes_behind(view.welcomes, user, after)[i];
                &&& decoded::<WelcomeDelivery>(row.record) is Ok
                &&& holds_welcome(row, decoded::<WelcomeDelivery>(row.record)->Ok_0)
                &&& row.record.len() <= PAGE_BYTES
            },
{
    let behind = welcomes_behind(view.welcomes, user, after);
    welcomes_behind_sorted(view, user, after);
    assert forall|i: int| 0 <= i < behind.len() implies {
        let row = #[trigger] behind[i];
        &&& decoded::<WelcomeDelivery>(row.record) is Ok
        &&& holds_welcome(row, decoded::<WelcomeDelivery>(row.record)->Ok_0)
        &&& row.record.len() <= PAGE_BYTES
    } by {
        read_gives_what_waits(view, behind[i]);
    }
}

/// A page of invitations in sound tables never fails and makes progress, and
/// each welcome stands under its cursor.
pub proof fn welcome_page_progress(view: RelayView, user: UserId, after: u64)
    requires
        sound(view),
        after <= MAX_NUMBER,
    ensures
        welcome_page(view, user, after) matches Ok(
            (ResponseView::Welcomes { after_cursor, welcomes, more }, _),
        ) && {
            let behind = welcomes_behind(view.welcomes, user, after);
            &&& after_cursor == after
            &&& welcomes.len() <= behind.len()
            &&& behind.len() > 0 ==> welcomes.len() > 0
            &&& more == (welcomes.len() < behind.len())
            &&& forall|i: int|
                0 <= i < welcomes.len() ==> #[trigger] welcomes[i] == welcome_read(behind[i])
        },
{
    let behind = welcomes_behind(view.welcomes, user, after);
    let room = welcome_room(after);
    let length = welcome_page_length(behind, room, 0, 0, 0);
    crate::sizes::u64_size(after);
    welcome_page_bounds(behind, room, 0, 0, 0);
    welcomes_readable(view, user, after);
    if behind.len() > 0 {
        crate::sizes::u64_size(behind[0].cursor);
    }
    let page = behind.take(length as int);
    assert forall|i: int| 0 <= i < page.len() implies decoded::<WelcomeDelivery>(
        (#[trigger] page[i]).record,
    ) is Ok by {
        assert(page[i] == behind[i]);
    }
    let welcomes = welcomes_read(page)->Some_0;
    assert forall|i: int| 0 <= i < welcomes.len() implies #[trigger] welcomes[i] == welcome_read(
        behind[i],
    ) by {
        assert(page[i] == behind[i]);
    }
}

/// Reading on behind the last cursor of a page gives what the page left.
pub proof fn next_welcome_page_continues(view: RelayView, user: UserId, after: u64, count: int)
    requires
        in_order(view),
        0 < count <= welcomes_behind(view.welcomes, user, after).len(),
    ensures
        welcomes_behind(
            view.welcomes,
            user,
            welcomes_behind(view.welcomes, user, after)[count - 1].cursor,
        ) == welcomes_behind(view.welcomes, user, after).skip(count),
{
    welcomes_behind_sorted(view, user, after);
    let behind = welcomes_behind(view.welcomes, user, after);
    let last = behind[count - 1].cursor;
    let first = |row: WelcomeRowView| row.recipient == user && row.cursor > after;
    let second = |row: WelcomeRowView| row.recipient == user && row.cursor > last;
    filter_of_filter(view.welcomes, first, second);
    filter_suffix(behind, second, count);
}

proof fn events_size(rows: Seq<EventRowView>, events: Seq<EventView>)
    requires
        rows.len() == events.len(),
        forall|i: int| 0 <= i < events.len() ==> holds_event(rows[i], #[trigger] events[i]),
    ensures
        items_encoded::<Event>(events).len() == sum(event_sizes(rows)),
    decreases events.len(),
{
    if events.len() > 0 {
        let rest = rows.skip(1);
        let later = events.skip(1);
        assert forall|i: int| 0 <= i < later.len() implies holds_event(rest[i], #[trigger] later[i]) by {
            assert(later[i] == events[i + 1]);
            assert(rest[i] == rows[i + 1]);
        }
        events_size(rest, later);
        assert(event_sizes(rows).skip(1) =~= event_sizes(rest));
        assert(holds_event(rows[0], events[0]));
    }
}

/// The size of a message with a page of a room's events.
#[verifier::spinoff_prover]
proof fn room_events_size(
    id: MessageId,
    room: RoomId,
    after: u64,
    events: Seq<EventView>,
    more: bool,
)
    requires
        events.len() <= PAGE_SIZE,
    ensures
        RelayMessage::encoded(
            RelayMessageView::Delivery {
                request_id: id,
                response: ResponseView::RoomEvents { room, after_sequence: after, events, more },
            },
        ).len() <= items_encoded::<Event>(events).len() + 96,
{
    id.determined_by_bytes();
    room.determined_by_bytes();
    crate::sizes::u64_size(after);
    crate::sizes::length_size(events.len());
}

/// The size of a message with a refusal.
#[verifier::spinoff_prover]
proof fn refusal_size(id: MessageId, reason: Rejection)
    ensures
        RelayMessage::encoded(
            RelayMessageView::Delivery {
                request_id: id,
                response: ResponseView::Rejected(reason),
            },
        ).len() <= 96,
{
    id.determined_by_bytes();
}

/// A page of a room's events fits a message.
#[verifier::spinoff_prover]
pub proof fn room_page_fits(
    view: RelayView,
    user: UserId,
    id: MessageId,
    room: RoomId,
    after: u64,
)
    requires
        sound(view),
    ensures
        room_page(view, user, room, after) matches Ok((response, _)) && RelayMessage::encoded(
            RelayMessageView::Delivery { request_id: id, response },
        ).len() <= MAX_PAYLOAD,
{
    refusal_size(id, Rejection::Invalid);
    refusal_size(id, Rejection::Unauthorized);
    if after <= MAX_NUMBER && view.subscribers.contains((room, user)) {
        room_page_progress(view, user, room, after);
        let response = room_page(view, user, room, after)->Ok_0.0;
        let events = response->RoomEvents_events;
        let behind = events_behind(view.events, room, after);
        let sizes = event_sizes(behind);
        page_length_bounds(sizes, 0, 0);
        let page = behind.take(events.len() as int);
        assert forall|i: int| 0 <= i < events.len() implies holds_event(page[i], #[trigger] events[i]) by {
            assert(page[i] == behind[i]);
        }
        events_size(page, events);
        assert(event_sizes(page) =~= sizes.take(events.len() as int));
        room_events_size(id, room, after, events, response->RoomEvents_more);
    }
}

proof fn welcome_size_under_cursor(row: WelcomeRowView, delivery: WelcomeDeliveryView)
    requires
        holds_welcome(row, delivery),
    ensures
        row.record.len() >= 1,
        WelcomeDelivery::encoded(WelcomeDeliveryView { cursor: row.cursor, ..delivery }).len()
            == row.record.len() - 1 + varint(row.cursor as nat).len(),
{
    assert(varint(0).len() == 1);
}

proof fn welcomes_size(rows: Seq<WelcomeRowView>, welcomes: Seq<WelcomeDeliveryView>)
    requires
        rows.len() == welcomes.len(),
        forall|i: int|
            0 <= i < rows.len() ==> holds_welcome(
                #[trigger] rows[i],
                decoded::<WelcomeDelivery>(rows[i].record)->Ok_0,
            ),
        forall|i: int| 0 <= i < welcomes.len() ==> #[trigger] welcomes[i] == welcome_read(rows[i]),
    ensures
        items_encoded::<WelcomeDelivery>(welcomes).len() == sum(sent_sizes(rows)),
    decreases welcomes.len(),
{
    if welcomes.len() > 0 {
        let rest = rows.skip(1);
        let later = welcomes.skip(1);
        assert forall|i: int| 0 <= i < later.len() implies #[trigger] later[i] == welcome_read(
            rest[i],
        ) by {
            assert(later[i] == welcomes[i + 1]);
            assert(rest[i] == rows[i + 1]);
        }
        assert forall|i: int| 0 <= i < rest.len() implies holds_welcome(
            #[trigger] rest[i],
            decoded::<WelcomeDelivery>(rest[i].record)->Ok_0,
        ) by {
            assert(rest[i] == rows[i + 1]);
        }
        welcomes_size(rest, later);
        assert(sent_sizes(rows).skip(1) =~= sent_sizes(rest));
        let first = decoded::<WelcomeDelivery>(rows[0].record)->Ok_0;
        assert(holds_welcome(rows[0], first));
        welcome_size_under_cursor(rows[0], first);
        assert(welcomes[0] == welcome_read(rows[0]));
    }
}

/// A page of invitations fits a message.
pub proof fn welcome_page_fits(view: RelayView, user: UserId, id: MessageId, after: u64)
    requires
        sound(view),
        after <= MAX_NUMBER,
    ensures
        welcome_page(view, user, after) matches Ok((response, _)) && RelayMessage::encoded(
            RelayMessageView::Delivery { request_id: id, response },
        ).len() <= MAX_PAYLOAD,
{
    id.determined_by_bytes();
    welcome_page_progress(view, user, after);
    welcomes_readable(view, user, after);
    let response = welcome_page(view, user, after)->Ok_0.0;
    let welcomes = response->Welcomes_welcomes;
    let behind = welcomes_behind(view.welcomes, user, after);
    crate::sizes::u64_size(after);
    welcome_page_bounds(behind, welcome_room(after), 0, 0, 0);
    let page = behind.take(welcomes.len() as int);
    assert forall|i: int| 0 <= i < page.len() implies holds_welcome(
        #[trigger] page[i],
        decoded::<WelcomeDelivery>(page[i].record)->Ok_0,
    ) by {
        assert(page[i] == behind[i]);
    }
    assert forall|i: int| 0 <= i < welcomes.len() implies #[trigger] welcomes[i] == welcome_read(
        page[i],
    ) by {
        assert(page[i] == behind[i]);
    }
    welcomes_size(page, welcomes);
    assert(varint(welcomes.len()).len() == 1);
}

/// The rooms on a list stand in strictly rising order behind the place where the
/// list starts, and each belongs there.
pub proof fn index_is_sorted(view: RelayView, user: UserId, after: Option<RoomId>, count: nat)
    ensures
        rooms_behind(view, user, after, count).len() <= count,
        forall|i: int|
            0 <= i < rooms_behind(view, user, after, count).len() ==> listed(
                view,
                user,
                after,
                #[trigger] rooms_behind(view, user, after, count)[i],
            ),
        forall|i: int, j: int|
            0 <= i < j < rooms_behind(view, user, after, count).len() ==> room_order(
                #[trigger] rooms_behind(view, user, after, count)[i],
            ) < room_order(#[trigger] rooms_behind(view, user, after, count)[j]),
    decreases count,
{
    if count > 0 && exists|room: RoomId| next_listed(view, user, after, room) {
        let room = choose|room: RoomId| next_listed(view, user, after, room);
        let rest = rooms_behind(view, user, Some(room), (count - 1) as nat);
        index_is_sorted(view, user, Some(room), (count - 1) as nat);
        let all = rooms_behind(view, user, after, count);
        assert(all =~= seq![room] + rest);
        assert forall|i: int| 0 <= i < all.len() implies listed(
            view,
            user,
            after,
            #[trigger] all[i],
        ) by {
            if i > 0 {
                assert(all[i] == rest[i - 1]);
                assert(listed(view, user, Some(room), rest[i - 1]));
            }
        }
        assert forall|i: int, j: int| 0 <= i < j < all.len() implies room_order(#[trigger] all[i])
            < room_order(#[trigger] all[j]) by {
            assert(all[j] == rest[j - 1]);
            assert(listed(view, user, Some(room), rest[j - 1]));
            if i > 0 {
                assert(all[i] == rest[i - 1]);
            }
        }
    }
}

/// A list that announces nothing more is whole: every room of the user behind the
/// start is on it.
pub proof fn short_index_is_whole(
    view: RelayView,
    user: UserId,
    after: Option<RoomId>,
    count: nat,
    room: RoomId,
)
    requires
        rooms_behind(view, user, after, count).len() < count,
        listed(view, user, after, room),
    ensures
        rooms_behind(view, user, after, count).contains(room),
    decreases count,
{
    least_listed(view, user, after, room);
    let first = choose|room: RoomId| next_listed(view, user, after, room);
    let rest = rooms_behind(view, user, Some(first), (count - 1) as nat);
    let all = rooms_behind(view, user, after, count);
    assert(all =~= seq![first] + rest);
    if room == first {
        assert(all[0] == room);
    } else {
        assert(room_order(first) <= room_order(room));
        if room_order(first) == room_order(room) {
            crate::order::room_order_injective(first, room);
        }
        short_index_is_whole(view, user, Some(first), (count - 1) as nat, room);
        let k = choose|k: int| 0 <= k < rest.len() && rest[k] == room;
        assert(all[k + 1] == room);
    }
}

/// Where some room is listed, one is next.
proof fn least_listed(view: RelayView, user: UserId, after: Option<RoomId>, room: RoomId)
    requires
        listed(view, user, after, room),
    ensures
        exists|next: RoomId| next_listed(view, user, after, next),
    decreases room_order(room),
{
    if !next_listed(view, user, after, room) {
        let other = choose|other: RoomId| #[trigger]
            listed(view, user, after, other) && room_order(other) < room_order(room);
        least_listed(view, user, after, other);
    }
}

proof fn heads_size(heads: Seq<RoomHeadView>)
    requires
        forall|i: int| 0 <= i < heads.len() ==> (#[trigger] heads[i]).name.len() <= 100,
    ensures
        items_encoded::<RoomHead>(heads).len() <= 429 * heads.len(),
    decreases heads.len(),
{
    if heads.len() > 0 {
        let later = heads.skip(1);
        assert forall|i: int| 0 <= i < later.len() implies (#[trigger] later[i]).name.len() <= 100 by {
            assert(later[i] == heads[i + 1]);
        }
        heads_size(later);
        crate::sizes::room_head_size(heads[0]);
    }
}

/// A page of rooms fits a message.
pub proof fn index_page_fits(view: RelayView, user: UserId, id: MessageId, after: Option<RoomId>)
    requires
        sound(view),
    ensures
        index_page(view, user, after) matches Ok((response, _)) && RelayMessage::encoded(
            RelayMessageView::Delivery { request_id: id, response },
        ).len() <= MAX_PAYLOAD,
{
    id.determined_by_bytes();
    let response = index_page(view, user, after)->Ok_0.0;
    let heads = response->SyncIndex_rooms;
    let count = (PAGE_SIZE + 1) as nat;
    index_is_sorted(view, user, after, count);
    let rooms = rooms_behind(view, user, after, count);
    assert forall|i: int| 0 <= i < heads.len() implies (#[trigger] heads[i]).name.len() <= 100 by {
        assert(listed(view, user, after, rooms[i]));
        first_room_known(view.rooms, rooms[i]);
    }
    heads_size(heads);
    crate::sizes::length_size(heads.len());
}

/// Every answer fits a message.
#[verifier::rlimit(60)]
#[verifier::spinoff_prover]
pub proof fn answers_fit(
    view: RelayView,
    limits: StorageLimits,
    facts: StorageFacts,
    user: UserId,
    id: MessageId,
    request: RequestView,
    now: i64,
    fresh: Option<RoomId>,
)
    requires
        sound(view),
    ensures
        outcome(view, limits, facts, user, id, request, now, fresh) matches Ok(done)
            ==> RelayMessage::encoded(
            RelayMessageView::Delivery { request_id: id, response: done.response },
        ).len() <= MAX_PAYLOAD,
{
    id.determined_by_bytes();
    if let Ok(done) = outcome(view, limits, facts, user, id, request, now, fresh) {
        let response = done.response;
        if view.requests.contains_key((user, id)) {
            let saved = view.requests[(user, id)];
            assert(request_row_sound(saved));
            let kept = choose|kept: ResponseView| #[trigger] holds_response(saved, kept);
            crate::protocol::message_round_trip::<Response>(kept);
            assert(response == kept || response is Rejected);
        } else if !(response is Rejected) {
            match request {
                RequestView::FetchRoomEvents { room, after_sequence } => {
                    room_page_fits(view, user, id, room, after_sequence);
                },
                RequestView::FetchWelcomes { after_cursor } => {
                    welcome_page_fits(view, user, id, after_cursor);
                },
                RequestView::SyncIndex { after_room } => {
                    index_page_fits(view, user, id, after_room);
                },
                _ => {
                    kept_answer_bounded(view, user, id, request, now, fresh);
                },
            }
        }
    }
}

/// No page holds more than so many records.
pub proof fn pages_are_short(view: RelayView, user: UserId, room: RoomId, after: u64)
    ensures
        room_page(view, user, room, after) matches Ok((ResponseView::RoomEvents { events, .. }, _))
            ==> events.len() <= PAGE_SIZE,
        welcome_page(view, user, after) matches Ok((ResponseView::Welcomes { welcomes, .. }, _))
            ==> welcomes.len() <= PAGE_SIZE,
        forall|last: Option<RoomId>|
            (#[trigger] index_page(view, user, last)) matches Ok(
                (ResponseView::SyncIndex { rooms, .. }, _),
            ) ==> rooms.len() <= PAGE_SIZE,
{
    page_length_bounds(event_sizes(events_behind(view.events, room, after)), 0, 0);
    crate::sizes::u64_size(after);
    welcome_page_bounds(
        welcomes_behind(view.welcomes, user, after),
        welcome_room(after),
        0,
        0,
        0,
    );
}

} // verus!
