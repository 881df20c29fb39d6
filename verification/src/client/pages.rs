//! What holds of the lists that a client reads, and of how it catches up.
use vstd::prelude::*;
use crate::client::journal::room_cursor;
use crate::client::laws::{applied_in_parts, client_in_order};
use crate::client::store::{
    behind, by_position, first_later, in_room, message_bytes, page_of_history, page_of_outbox,
    page_rows, DatabaseSize, OUTBOX_PAGE_BYTES, ROW_LIMIT,
};
use crate::client::sync::{
    event_step, sync_step, welcome_page_rows, welcome_rows, EventListView, SyncActionView,
    SyncEventView, SyncStateView,
};
use crate::client::tables::{
    client_admitted, client_all_admitted, client_all_applied, client_applied, ClientChangeView,
    ClientView, HistoryRowView, OutboxRowView, MAX_POSITION,
};
use crate::delivery::{WelcomeDelivery, WelcomeDeliveryView};
use crate::ids::{RoomId, UserId};
use crate::requests::RequestView;
use crate::sequences::filter_members;
use crate::wire::Wire;

verus! {

/// Whether messages stand in the order of their positions.
pub open spec fn sorted_by_position(rows: Seq<HistoryRowView>) -> bool {
    forall|i: int, j: int|
        0 <= i < j < rows.len() ==> (#[trigger] rows[i]).sequence <= (#[trigger] rows[j]).sequence
}

proof fn first_later_splits(rows: Seq<HistoryRowView>, sequence: u64)
    requires
        sorted_by_position(rows),
    ensures
        first_later(rows, sequence) <= rows.len(),
        forall|i: int|
            0 <= i < first_later(rows, sequence) ==> (#[trigger] rows[i]).sequence <= sequence,
        forall|i: int|
            first_later(
                rows,
                sequence,
            ) <= i < rows.len() ==> (#[trigger] rows[i]).sequence > sequence,
    decreases rows.len(),
{
    if rows.len() > 0 {
        if rows[0].sequence > sequence {
            assert forall|i: int| 0 <= i < rows.len() implies (#[trigger] rows[i]).sequence > sequence by {
                if i > 0 {
                    assert(rows[0].sequence <= rows[i].sequence);
                }
            }
        } else {
            let rest = rows.skip(1);
            assert forall|i: int, j: int| 0 <= i < j < rest.len() implies (#[trigger] rest[i]).sequence
                <= (#[trigger] rest[j]).sequence by {
                assert(rows[i + 1].sequence <= rows[j + 1].sequence);
            }
            first_later_splits(rest, sequence);
            assert forall|i: int| 0 <= i < first_later(rows, sequence) implies (
            #[trigger] rows[i]).sequence <= sequence by {
                if i > 0 {
                    assert(rest[i - 1] == rows[i]);
                }
            }
            assert forall|i: int| first_later(rows, sequence) <= i < rows.len() implies (
            #[trigger] rows[i]).sequence > sequence by {
                assert(rest[i - 1] == rows[i]);
            }
        }
    }
}

/// Putting messages in order loses none, adds none and sorts them.
pub proof fn ordering_sorts(rows: Seq<HistoryRowView>)
    ensures
        by_position(rows).len() == rows.len(),
        by_position(rows).to_multiset() == rows.to_multiset(),
        sorted_by_position(by_position(rows)),
    decreases rows.len(),
{
    if rows.len() > 0 {
        let front = rows.drop_last();
        let row = rows.last();
        ordering_sorts(front);
        let before = by_position(front);
        let at = first_later(before, row.sequence) as int;
        first_later_splits(before, row.sequence);
        let after = before.insert(at, row);
        assert forall|i: int, j: int| 0 <= i < j < after.len() implies (#[trigger] after[i]).sequence
            <= (#[trigger] after[j]).sequence by {
            let a = if i < at { i } else { i - 1 };
            let b = if j < at { j } else { j - 1 };
            if i != at {
                assert(after[i] == before[a]);
            }
            if j != at {
                assert(after[j] == before[b]);
            }
        }
        vstd::seq_lib::to_multiset_insert(before, at, row);
        assert(rows =~= front.push(row));
        vstd::seq_lib::to_multiset_build(front, row);
    }
}

/// A page of the history holds at most so many messages, all of the room and
/// before the position asked for, in the order of their positions; what is left
/// out does not come later than what is there.
pub proof fn history_page_is_the_newest(
    history: Seq<HistoryRowView>,
    room: RoomId,
    before: Option<u64>,
)
    ensures
        ({
            let all = by_position(history.filter(in_room(room, before)));
            let page = page_of_history(history, room, before);
            &&& page.len() <= ROW_LIMIT
            &&& all.len() <= ROW_LIMIT ==> page == all
            &&& sorted_by_position(page)
            &&& forall|i: int|
                0 <= i < page.len() ==> in_room(room, before)(#[trigger] page[i]) && history.contains(
                    page[i],
                )
            &&& forall|i: int, j: int|
                0 <= i < all.len() - page.len() && 0 <= j < page.len() ==> (
                #[trigger] all[i]).sequence <= (#[trigger] page[j]).sequence
        }),
{
    let wanted = history.filter(in_room(room, before));
    let all = by_position(wanted);
    let page = page_of_history(history, room, before);
    ordering_sorts(wanted);
    let gone = all.len() - page.len();
    assert(page =~= all.skip(gone));
    assert forall|i: int, j: int| 0 <= i < j < page.len() implies (#[trigger] page[i]).sequence <= (
    #[trigger] page[j]).sequence by {
        assert(page[i] == all[gone + i]);
        assert(page[j] == all[gone + j]);
    }
    assert forall|i: int, j: int| 0 <= i < gone && 0 <= j < page.len() implies (
    #[trigger] all[i]).sequence <= (#[trigger] page[j]).sequence by {
        assert(page[j] == all[gone + j]);
    }
    assert forall|i: int| 0 <= i < page.len() implies in_room(room, before)(#[trigger] page[i])
        && history.contains(page[i]) by {
        assert(page[i] == all[gone + i]);
        assert(all.contains(page[i]));
        broadcast use vstd::seq_lib::group_to_multiset_ensures;

        assert(all.to_multiset().count(page[i]) > 0);
        assert(wanted.contains(page[i]));
        let k = wanted.index_of(page[i]);
        filter_members(history, in_room(room, before));
        assert(wanted[k] == page[i]);
    }
}

pub(crate) proof fn page_rows_bounds(rows: Seq<OutboxRowView>, taken: nat)
    requires
        taken <= rows.len(),
        taken <= ROW_LIMIT,
        taken <= 1 || message_bytes(rows.take(taken as int)) <= OUTBOX_PAGE_BYTES,
    ensures
        taken <= page_rows(rows, taken) <= rows.len(),
        page_rows(rows, taken) <= ROW_LIMIT,
        page_rows(rows, taken) <= 1 || message_bytes(rows.take(page_rows(rows, taken) as int))
            <= OUTBOX_PAGE_BYTES,
        taken == 0 && rows.len() > 0 ==> page_rows(rows, taken) > 0,
    decreases rows.len() - taken,
{
    if taken >= rows.len() || taken >= ROW_LIMIT || (taken > 0 && message_bytes(
        rows.take((taken + 1) as int),
    ) > OUTBOX_PAGE_BYTES) {
    } else {
        page_rows_bounds(rows, taken + 1);
    }
}

/// What a list of rising numbers holds behind its first rows is what follows them.
proof fn rows_behind_prefix(rows: Seq<OutboxRowView>, count: int)
    requires
        0 < count <= rows.len(),
        forall|i: int, j: int|
            0 <= i < j < rows.len() ==> (#[trigger] rows[i]).rowid < (#[trigger] rows[j]).rowid,
    ensures
        rows.filter(behind(rows[count - 1].rowid)) == rows.skip(count),
    decreases rows.len(),
{
    reveal(Seq::filter);
    let last = rows[count - 1].rowid;
    if count == rows.len() {
        assert forall|i: int| 0 <= i < rows.len() implies !behind(last)(#[trigger] rows[i]) by {
            if i < count - 1 {
                assert(rows[i].rowid < rows[count - 1].rowid);
            }
        }
        filter_nothing(rows, behind(last));
        assert(rows.skip(count) =~= Seq::<OutboxRowView>::empty());
    } else {
        let front = rows.drop_last();
        assert forall|i: int, j: int| 0 <= i < j < front.len() implies (#[trigger] front[i]).rowid < (
        #[trigger] front[j]).rowid by {
            assert(rows[i].rowid < rows[j].rowid);
        }
        rows_behind_prefix(front, count);
        assert(front[count - 1] == rows[count - 1]);
        assert(rows[count - 1].rowid < rows[rows.len() - 1].rowid);
        assert(behind(last)(rows.last()));
        assert(rows.filter(behind(last)) == front.filter(behind(last)).push(rows.last()));
        assert(rows.skip(count) =~= front.skip(count).push(rows.last()));
    }
}

proof fn filter_nothing<A>(items: Seq<A>, wanted: spec_fn(A) -> bool)
    requires
        forall|i: int| 0 <= i < items.len() ==> !wanted(#[trigger] items[i]),
    ensures
        items.filter(wanted) == Seq::<A>::empty(),
    decreases items.len(),
{
    reveal(Seq::filter);
    if items.len() > 0 {
        assert(!wanted(items[items.len() - 1]));
        assert forall|i: int| 0 <= i < items.drop_last().len() implies !wanted(
            #[trigger] items.drop_last()[i],
        ) by {
            assert(items.drop_last()[i] == items[i]);
        }
        filter_nothing(items.drop_last(), wanted);
    }
}

/// Page after page reads the whole journal in the order of its numbers: a page is
/// empty only where nothing is left, and the next page goes on where it ends.
pub proof fn next_outbox_page_continues(view: ClientView, after: i64)
    requires
        client_in_order(view),
    ensures
        ({
            let rows = view.outbox.filter(behind(after));
            let page = page_of_outbox(view.outbox, after);
            &&& page.len() <= ROW_LIMIT
            &&& page == rows.take(page.len() as int)
            &&& rows.len() > 0 ==> page.len() > 0
            &&& page.len() <= 1 || message_bytes(page) <= OUTBOX_PAGE_BYTES
            &&& page.len() > 0 ==> page.last().rowid > after && view.outbox.filter(
                behind(page.last().rowid),
            ) == rows.skip(page.len() as int)
        }),
{
    let rows = view.outbox.filter(behind(after));
    let page = page_of_outbox(view.outbox, after);
    assert(rows.take(0) =~= Seq::<OutboxRowView>::empty());
    page_rows_bounds(rows, 0);
    if page.len() > 0 {
        let count = page.len() as int;
        rising_filter(view.outbox, behind(after));
        filter_members(view.outbox, behind(after));
        assert(rows[count - 1] == page.last());
        assert(behind(after)(rows[count - 1]));
        rows_behind_prefix(rows, count);
        narrower_filter(view.outbox, after, page.last().rowid);
    }
}

/// What is chosen from a rising list rises.
proof fn rising_filter(rows: Seq<OutboxRowView>, wanted: spec_fn(OutboxRowView) -> bool)
    requires
        forall|i: int, j: int|
            0 <= i < j < rows.len() ==> (#[trigger] rows[i]).rowid < (#[trigger] rows[j]).rowid,
    ensures
        forall|i: int, j: int|
            0 <= i < j < rows.filter(wanted).len() ==> (#[trigger] rows.filter(wanted)[i]).rowid < (
            #[trigger] rows.filter(wanted)[j]).rowid,
        forall|i: int|
            0 <= i < rows.filter(wanted).len() && rows.len() > 0 ==> (
            #[trigger] rows.filter(wanted)[i]).rowid <= rows.last().rowid,
    decreases rows.len(),
{
    reveal(Seq::filter);
    if rows.len() > 0 {
        let front = rows.drop_last();
        assert forall|i: int, j: int| 0 <= i < j < front.len() implies (#[trigger] front[i]).rowid < (
        #[trigger] front[j]).rowid by {
            assert(rows[i].rowid < rows[j].rowid);
        }
        rising_filter(front, wanted);
        let chosen = front.filter(wanted);
        let all = rows.filter(wanted);
        assert forall|i: int| 0 <= i < chosen.len() implies (#[trigger] chosen[i]).rowid
            < rows.last().rowid by {
            if front.len() > 0 {
                assert(front.last() == rows[rows.len() - 2]);
                assert(rows[rows.len() - 2].rowid < rows[rows.len() - 1].rowid);
            } else {
                filter_members(front, wanted);
            }
        }
        assert forall|i: int, j: int| 0 <= i < j < all.len() implies (#[trigger] all[i]).rowid < (
        #[trigger] all[j]).rowid by {
            if j < chosen.len() {
                assert(all[i] == chosen[i]);
                assert(all[j] == chosen[j]);
            } else {
                assert(all[i] == chosen[i]);
            }
        }
        assert forall|i: int| 0 <= i < all.len() implies (#[trigger] all[i]).rowid
            <= rows.last().rowid by {
            if i < chosen.len() {
                assert(all[i] == chosen[i]);
            }
        }
    }
}

/// What is behind a later number is behind it among what is behind an earlier one.
proof fn narrower_filter(rows: Seq<OutboxRowView>, early: i64, late: i64)
    requires
        early <= late,
    ensures
        rows.filter(behind(late)) == rows.filter(behind(early)).filter(behind(late)),
    decreases rows.len(),
{
    reveal(Seq::filter);
    if rows.len() > 0 {
        narrower_filter(rows.drop_last(), early, late);
        let chosen = rows.drop_last().filter(behind(early));
        if behind(early)(rows.last()) {
            assert(chosen.push(rows.last()).drop_last() =~= chosen);
        }
    }
}

/// Whether a page's events extend the room one after the other, up to one of them.
pub open spec fn contiguous(page: EventListView, count: nat) -> bool {
    forall|i: int|
        0 <= i < count ==> (#[trigger] page.events[i]).operation.room
            == page.rooms.heads[page.rooms.at as int].room && page.events[i].operation.parent
            == page.cursor + i
}

/// What holds while a client catches up: what is written or processed extends its
/// room without a gap.
pub open spec fn sync_sound(state: SyncStateView) -> bool {
    match state {
        SyncStateView::EventWritten(page) => page.at < page.events.len() && contiguous(
            page,
            page.at + 1,
        ),
        SyncStateView::Applying(page) => page.at < page.events.len() && contiguous(
            page,
            page.events.len(),
        ),
        _ => true,
    }
}

/// While a client catches up, every event that it processes extends its room by
/// one from where the page starts, and it asks for a room from exactly where it
/// stands.
pub proof fn catching_up_leaves_no_gap(
    view: ClientView,
    budget: u64,
    user: UserId,
    state: SyncStateView,
    event: SyncEventView,
    size: DatabaseSize,
)
    requires
        sync_sound(state),
        sync_step(view, budget, user, state, event, size) is Ok,
    ensures
        ({
            let (next, action) = sync_step(view, budget, user, state, event, size)->Ok_0;
            &&& sync_sound(next)
            &&& action matches SyncActionView::Apply(applied) ==> (next matches SyncStateView::Applying(page)
                && applied == page.events[page.at as int] && applied.operation.parent == page.cursor
                + page.at && applied.operation.room == page.rooms.heads[page.rooms.at as int].room)
            &&& action matches SyncActionView::Ask(request) ==> (match request {
                RequestView::FetchRoomEvents { room, after_sequence } => after_sequence
                    == room_cursor(view, room),
                RequestView::FetchWelcomes { after_cursor } => after_cursor == view.welcome_cursor,
                _ => true,
            })
        }),
{
    match (state, event) {
        (SyncStateView::EventWritten(page), SyncEventView::Written) => {
            if page.at + 1 < page.events.len() {
                let onward = EventListView { at: page.at + 1, ..page };
                event_step_extends(view, budget, onward, size);
            } else {
                let start = EventListView { at: 0, ..page };
                assert(contiguous(start, start.events.len())) by {
                    assert forall|i: int| 0 <= i < start.events.len() implies (
                    #[trigger] start.events[i]).operation.room
                        == start.rooms.heads[start.rooms.at as int].room
                        && start.events[i].operation.parent == start.cursor + i by {
                        assert(page.events[i].operation.parent == page.cursor + i);
                    }
                }
            }
        },
        (SyncStateView::Applying(page), SyncEventView::Applied(goes_on)) => {
            if goes_on && page.at + 1 < page.events.len() {
                let onward = EventListView { at: page.at + 1, ..page };
                assert(contiguous(onward, onward.events.len())) by {
                    assert forall|i: int| 0 <= i < onward.events.len() implies (
                    #[trigger] onward.events[i]).operation.room
                        == onward.rooms.heads[onward.rooms.at as int].room
                        && onward.events[i].operation.parent == onward.cursor + i by {
                        assert(page.events[i].operation.parent == page.cursor + i);
                    }
                }
            }
        },
        (SyncStateView::Events { rooms, cursor }, SyncEventView::Answer(response)) => {
            match response {
                crate::requests::ResponseView::RoomEvents { events, .. } => {
                    let page = EventListView { rooms, cursor, events, at: 0 };
                    event_step_extends(view, budget, page, size);
                },
                _ => {},
            }
        },
        _ => {},
    }
}

proof fn event_step_extends(view: ClientView, budget: u64, page: EventListView, size: DatabaseSize)
    requires
        event_step(view, budget, page, size) is Ok,
        contiguous(page, page.at),
        page.at < page.events.len(),
    ensures
        sync_sound(event_step(view, budget, page, size)->Ok_0.0),
        event_step(view, budget, page, size)->Ok_0.1 is Write,
{
    assert(contiguous(page, page.at + 1)) by {
        assert forall|i: int| 0 <= i < page.at + 1 implies (#[trigger] page.events[i]).operation.room
            == page.rooms.heads[page.rooms.at as int].room && page.events[i].operation.parent
            == page.cursor + i by {
        }
    }
}

/// What is written of a page of welcomes: each behind the one before, all for this
/// user.
proof fn welcome_rows_rise(
    view: ClientView,
    user: UserId,
    last: u64,
    welcomes: Seq<WelcomeDeliveryView>,
)
    requires
        welcome_rows(view, user, last, welcomes) is Ok,
    ensures
        ({
            let rows = welcome_rows(view, user, last, welcomes)->Ok_0;
            &&& rows.len() == welcomes.len()
            &&& forall|i: int|
                0 <= i < rows.len() ==> (#[trigger] rows[i]) == (ClientChangeView::Welcome {
                    cursor: welcomes[i].cursor,
                    record: WelcomeDelivery::encoded(welcomes[i]),
                }) && last < welcomes[i].cursor <= MAX_POSITION
                    && !view.welcomes.contains_key(welcomes[i].cursor)
                    && welcomes[i].attachment.recipient == user
            &&& forall|i: int, j: int|
                0 <= i < j < welcomes.len() ==> (#[trigger] welcomes[i]).cursor < (
                #[trigger] welcomes[j]).cursor
        }),
    decreases welcomes.len(),
{
    if welcomes.len() > 0 {
        let rest = welcomes.skip(1);
        welcome_rows_rise(view, user, welcomes[0].cursor, rest);
        let rows = welcome_rows(view, user, last, welcomes)->Ok_0;
        let later = welcome_rows(view, user, welcomes[0].cursor, rest)->Ok_0;
        assert forall|i: int| 0 <= i < rows.len() implies (#[trigger] rows[i]) == (
        ClientChangeView::Welcome {
            cursor: welcomes[i].cursor,
            record: WelcomeDelivery::encoded(welcomes[i]),
        }) && last < welcomes[i].cursor <= MAX_POSITION && !view.welcomes.contains_key(
            welcomes[i].cursor,
        ) && welcomes[i].attachment.recipient == user by {
            if i > 0 {
                assert(rows[i] == later[i - 1]);
                assert(rest[i - 1] == welcomes[i]);
            }
        }
        assert forall|i: int, j: int| 0 <= i < j < welcomes.len() implies (
        #[trigger] welcomes[i]).cursor < (#[trigger] welcomes[j]).cursor by {
            assert(rest[j - 1] == welcomes[j]);
            assert(later[j - 1] == rows[j]);
            if i > 0 {
                assert(rest[i - 1] == welcomes[i]);
            }
        }
    }
}

proof fn welcomes_are_taken(view: ClientView, changes: Seq<ClientChangeView>)
    requires
        forall|i: int| 0 <= i < changes.len() ==> (#[trigger] changes[i]) is Welcome,
        forall|i: int|
            0 <= i < changes.len() ==> (#[trigger] changes[i])->Welcome_cursor <= MAX_POSITION
                && !view.welcomes.contains_key(changes[i]->Welcome_cursor),
        forall|i: int, j: int|
            0 <= i < j < changes.len() ==> (#[trigger] changes[i])->Welcome_cursor < (
            #[trigger] changes[j])->Welcome_cursor,
    ensures
        client_all_admitted(view, changes),
        client_all_applied(view, changes) == (ClientView {
            welcomes: client_all_applied(view, changes).welcomes,
            ..view
        }),
        forall|cursor: u64| #[trigger]
            client_all_applied(view, changes).welcomes.contains_key(cursor) ==> view.welcomes.contains_key(
                cursor,
            ) || exists|i: int|
                0 <= i < changes.len() && (#[trigger] changes[i])->Welcome_cursor == cursor,
        forall|i: int|
            0 <= i < changes.len() ==> client_all_applied(view, changes).welcomes.contains_key(
                (#[trigger] changes[i])->Welcome_cursor,
            ),
    decreases changes.len(),
{
    if changes.len() > 0 {
        let front = changes.drop_last();
        assert forall|i: int| 0 <= i < front.len() implies (#[trigger] front[i]) == changes[i] by {
        }
        welcomes_are_taken(view, front);
        let before = client_all_applied(view, front);
        let cursor = changes.last()->Welcome_cursor;
        assert(!before.welcomes.contains_key(cursor)) by {
            if before.welcomes.contains_key(cursor) {
                let i = choose|i: int|
                    0 <= i < front.len() && (#[trigger] front[i])->Welcome_cursor == cursor;
                assert(changes[i]->Welcome_cursor < changes[changes.len() - 1]->Welcome_cursor);
            }
        }
        assert(changes[changes.len() - 1] == changes.last());
        assert(client_admitted(before, changes.last()));
        let after = client_all_applied(view, changes);
        assert forall|other: u64| #[trigger] after.welcomes.contains_key(other) implies view.welcomes.contains_key(
            other,
        ) || exists|i: int|
            0 <= i < changes.len() && (#[trigger] changes[i])->Welcome_cursor == other by {
            if other == cursor {
                assert(changes[changes.len() - 1]->Welcome_cursor == other);
            } else {
                assert(before.welcomes.contains_key(other));
                if !view.welcomes.contains_key(other) {
                    let i = choose|i: int|
                        0 <= i < front.len() && (#[trigger] front[i])->Welcome_cursor == other;
                    assert(changes[i]->Welcome_cursor == other);
                }
            }
        }
        assert forall|i: int| 0 <= i < changes.len() implies after.welcomes.contains_key(
            (#[trigger] changes[i])->Welcome_cursor,
        ) by {
            if i < front.len() {
                assert(before.welcomes.contains_key(front[i]->Welcome_cursor));
            }
        }
    }
}

/// A page of welcomes that is written moves the cursor forward to its last
/// welcome, and all of its welcomes are kept.
pub proof fn welcome_page_moves_the_cursor_forward(
    view: ClientView,
    budget: u64,
    user: UserId,
    welcomes: Seq<WelcomeDeliveryView>,
    size: DatabaseSize,
)
    requires
        welcomes.len() > 0,
        welcome_page_rows(view, budget, user, view.welcome_cursor, welcomes, size) is Ok,
    ensures
        ({
            let changes = welcome_page_rows(
                view,
                budget,
                user,
                view.welcome_cursor,
                welcomes,
                size,
            )->Ok_0;
            let after = client_all_applied(view, changes);
            &&& client_all_admitted(view, changes)
            &&& after.welcome_cursor == welcomes.last().cursor
            &&& after.welcome_cursor > view.welcome_cursor
            &&& forall|i: int|
                0 <= i < welcomes.len() ==> after.welcomes.contains_key(
                    (#[trigger] welcomes[i]).cursor,
                ) && welcomes[i].attachment.recipient == user
        }),
{
    let rows = welcome_rows(view, user, view.welcome_cursor, welcomes)->Ok_0;
    let cursor = ClientChangeView::WelcomeCursor { cursor: welcomes.last().cursor };
    welcome_rows_rise(view, user, view.welcome_cursor, welcomes);
    assert forall|i: int, j: int| 0 <= i < j < rows.len() implies (#[trigger] rows[i])->Welcome_cursor < (
    #[trigger] rows[j])->Welcome_cursor by {
        assert(welcomes[i].cursor < welcomes[j].cursor);
    }
    welcomes_are_taken(view, rows);
    applied_in_parts(view, rows, seq![cursor]);
    let middle = client_all_applied(view, rows);
    assert(rows[rows.len() - 1]->Welcome_cursor == welcomes.last().cursor);
    assert(seq![cursor].drop_last() =~= Seq::<ClientChangeView>::empty());
    assert(client_all_applied(middle, Seq::empty()) == middle);
    assert(client_all_applied(middle, seq![cursor]) == client_applied(middle, cursor));
    assert(welcomes.last().cursor <= MAX_POSITION);
    assert(client_admitted(middle, cursor));
    assert(client_all_admitted(middle, Seq::empty()));
    assert(seq![cursor].last() == cursor);
    assert(client_all_admitted(middle, seq![cursor]));
    assert forall|i: int| 0 <= i < welcomes.len() implies middle.welcomes.contains_key(
        (#[trigger] welcomes[i]).cursor,
    ) && welcomes[i].attachment.recipient == user by {
        assert(rows[i]->Welcome_cursor == welcomes[i].cursor);
    }
}

} // verus!
