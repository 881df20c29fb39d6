//! What one client appends, another reads.
use vstd::prelude::*;
use crate::delivery::{AppendView, Event, EventView};
use crate::protocol::{decoded, DecodeMessageError};
use crate::relay::effects::{
    after, affordable, answer, appending_an_operation, booked, extended_by, holds_welcome_of,
    writes_anew, Delivery,
};
use crate::relay::reading::{
    later_events, later_welcomes, reading_a_room, reading_welcomes,
};
use crate::relay::service::StateView;
use crate::relay::sound::{delivery_keeps_sound, sound};
use crate::relay::tables::{EventRowView, RelayView, StorageError, WelcomeRowView};
use crate::requests::{Request, RequestView, ResponseView};
use crate::sequences::filter_none;
use crate::wire::Wire;

verus! {

/// Whether an answer is that an operation was accepted.
pub open spec fn accepted(state: StateView, d: Delivery, operation: AppendView) -> bool {
    answer(state, d) == Ok::<ResponseView, StorageError>(
        ResponseView::AppendAccepted {
            event: EventView { id: d.id, sender: d.user, operation },
        },
    )
}

proof fn stays_sound(state: StateView, d: Delivery)
    requires
        sound(state.tables),
    ensures
        sound(after(state, d).tables),
{
    delivery_keeps_sound(
        state.tables,
        state.limits,
        d.facts,
        d.user,
        d.id,
        d.request,
        d.now,
        d.fresh,
    );
}

proof fn tables_extended(state: StateView, d: Delivery, operation: AppendView) -> (tables: RelayView)
    requires
        sound(state.tables),
        writes_anew(state, d),
        affordable(state, d),
        d.request == RequestView::AppendRoomOperation(operation),
        accepted(state, d, operation),
        operation.welcome is Some && state.tables.welcomes.len() > 0
            ==> state.tables.welcomes.last().cursor < 0x7fff_ffff_ffff_ffff,
    ensures
        extended_by(state.tables, tables, d.user, d.id, operation),
        after(state, d).tables.events == tables.events,
        after(state, d).tables.welcomes == tables.welcomes,
        after(state, d).tables.subscribers == tables.subscribers,
        after(state, d).tables.rooms == state.tables.rooms,
{
    appending_an_operation(state, d, operation);
    let response = ResponseView::AppendAccepted {
        event: EventView { id: d.id, sender: d.user, operation },
    };
    choose|tables: RelayView| #[trigger]
        extended_by(state.tables, tables, d.user, d.id, operation) && booked(
            state,
            d,
            response,
            tables,
        )
}

/// An operation that was accepted is what everybody who subscribes to its room reads next
/// behind its parent: that very event, from its sender, and nothing behind it.
pub proof fn appended_is_read(
    state: StateView,
    d: Delivery,
    operation: AppendView,
    reader: Delivery,
)
    requires
        sound(state.tables),
        writes_anew(state, d),
        affordable(state, d),
        d.request == RequestView::AppendRoomOperation(operation),
        operation.welcome is Some && state.tables.welcomes.len() > 0
            ==> state.tables.welcomes.last().cursor < 0x7fff_ffff_ffff_ffff,
        accepted(state, d, operation),
        !after(state, d).tables.requests.contains_key((reader.user, reader.id)),
        Request::encoded(reader.request).len() <= 786432,
        reader.request == (RequestView::FetchRoomEvents {
            room: operation.room,
            after_sequence: operation.parent,
        }),
        after(state, d).tables.subscribers.contains((operation.room, reader.user)),
    ensures
        answer(after(state, d), reader) matches Ok(
            ResponseView::RoomEvents { room, after_sequence, events, more },
        ) && room == operation.room && after_sequence == operation.parent && !more && events == seq![
            EventView { id: d.id, sender: d.user, operation },
        ],
{
    let left = after(state, d);
    let event = EventView { id: d.id, sender: d.user, operation };
    let row = only_event_behind(state, d, operation);
    stays_sound(state, d);
    reading_a_room(left, reader, operation.room, operation.parent);
    one_event_page(seq![row]);
    if let Ok(ResponseView::RoomEvents { events, .. }) = answer(left, reader) {
        assert(events.len() == 1);
        assert(events[0] == event);
        assert(events =~= seq![event]);
    }
}

proof fn one_event_page(rows: Seq<EventRowView>)
    requires
        rows.len() == 1,
    ensures
        crate::relay::reading::event_bytes(rows, 1) == rows[0].record.len(),
{
    reveal_with_fuel(crate::relay::reading::event_bytes, 2);
}

/// The row of an accepted event is the only one of its room behind its parent.
proof fn only_event_behind(state: StateView, d: Delivery, operation: AppendView) -> (row:
    EventRowView)
    requires
        sound(state.tables),
        writes_anew(state, d),
        affordable(state, d),
        d.request == RequestView::AppendRoomOperation(operation),
        operation.welcome is Some && state.tables.welcomes.len() > 0
            ==> state.tables.welcomes.last().cursor < 0x7fff_ffff_ffff_ffff,
        accepted(state, d, operation),
    ensures
        later_events(after(state, d).tables.events, operation.room, operation.parent) == seq![row],
        decoded::<Event>(row.record) == Ok::<EventView, DecodeMessageError>(
            EventView { id: d.id, sender: d.user, operation },
        ),
        row.record.len() <= 786336,
        operation.parent < 0x7fff_ffff_ffff_ffff,
{
    let left = after(state, d);
    let tables = tables_extended(state, d, operation);
    stays_sound(state, d);
    appending_an_operation(state, d, operation);
    let before = state.tables.events;
    let row = tables.events.last();
    let event = EventView { id: d.id, sender: d.user, operation };
    let wanted = |row: EventRowView| row.room == operation.room && row.sequence > operation.parent;
    assert(left.tables.events =~= before.push(row));
    filter_none(before, wanted);
    assert(later_events(left.tables.events, operation.room, operation.parent) =~= seq![row]) by {
        reveal(Seq::filter);
        assert(before.push(row).drop_last() =~= before);
        assert(wanted(row));
    }
    assert(left.tables.events[left.tables.events.len() - 1] == row);
    assert(crate::relay::sound::event_row_sound(row));
    let held = choose|held: EventView| #[trigger] crate::relay::sound::holds_event(row, held);
    crate::relay::sound::operation_bounded(held);
    assert(held == event);
    row
}

/// A welcome that went with an accepted operation is what its recipient reads next: one
/// welcome, for the room of the operation, under the name that is stored for that very
/// room, with the event and its position, from the appending user, and as it was
/// attached.
pub proof fn welcome_is_told(
    state: StateView,
    d: Delivery,
    operation: AppendView,
    reader: Delivery,
    cursor: u64,
    at: int,
)
    requires
        sound(state.tables),
        writes_anew(state, d),
        affordable(state, d),
        d.request == RequestView::AppendRoomOperation(operation),
        accepted(state, d, operation),
        operation.welcome matches Some(attachment) && reader.user == attachment.recipient,
        cursor == if state.tables.welcomes.len() == 0 {
            0
        } else {
            state.tables.welcomes.last().cursor
        },
        cursor < 0x7fff_ffff_ffff_ffff,
        !after(state, d).tables.requests.contains_key((reader.user, reader.id)),
        Request::encoded(reader.request).len() <= 786432,
        reader.request == (RequestView::FetchWelcomes { after_cursor: cursor }),
        0 <= at < state.tables.rooms.len(),
        state.tables.rooms[at].room == operation.room,
    ensures
        answer(after(state, d), reader) matches Ok(
            ResponseView::Welcomes { after_cursor, welcomes, more },
        ) && {
            &&& after_cursor == cursor
            &&& !more
            &&& welcomes.len() == 1
            &&& welcomes[0].room == operation.room
            &&& welcomes[0].room_name == state.tables.rooms[at].name
            &&& welcomes[0].event == d.id
            &&& welcomes[0].sequence == operation.parent + 1
            &&& welcomes[0].inviter == d.user
            &&& operation.welcome == Some(welcomes[0].attachment)
            &&& welcomes[0].cursor == cursor + 1
        },
{
    let left = after(state, d);
    let tables = tables_extended(state, d, operation);
    stays_sound(state, d);
    let before = state.tables.welcomes;
    let row = tables.welcomes.last();
    let wanted = |row: WelcomeRowView| row.recipient == reader.user && row.cursor > cursor;
    assert(left.tables.welcomes =~= before.push(row));
    assert forall|i: int| 0 <= i < before.len() implies !wanted(#[trigger] before[i]) by {
        if i < before.len() - 1 {
            assert(before[i].cursor < before[before.len() - 1].cursor);
        }
    }
    filter_none(before, wanted);
    assert(later_welcomes(left.tables.welcomes, reader.user, cursor) =~= seq![row]) by {
        reveal(Seq::filter);
        assert(before.push(row).drop_last() =~= before);
        assert(wanted(row));
    }
    reading_welcomes(left, reader, cursor);
    assert(holds_welcome_of(row, state.tables.rooms, d.user, d.id, operation));
}

} // verus!
