//! What each turn of catching up takes in, writes and asks for.
use vstd::prelude::*;
use crate::client::catchup::{has_attempt, waiting_is_indexed};
use crate::client::keeping::listing_a_room;
use crate::client::laws::{applied_in_parts, applied_nothing, applied_one};
use crate::client::reception::{
    budget_is_kept, position_in, receivable, receivable_is_received, receiving_an_event,
};
use crate::client::store::DatabaseSize;
use crate::client::sync::{
    sync_step, welcome_page_rows, welcome_rows, EventListView, RoomListView, SyncActionView, SyncEventView,
    SyncStateView,
};
use crate::client::tables::{
    client_all_applied, client_applied, Arrival, ClientChangeView, ClientView, InboxRowView,
    RoomEntryView, WelcomeInboxRowView,
};
use crate::delivery::{Event, WelcomeDelivery, WelcomeDeliveryView};
use crate::ids::{RoomId, UserId};
use crate::order::room_order;
use crate::protocol::normalized_name;
use crate::requests::{RequestView, ResponseView};
use crate::wire::Wire;

verus! {

/// Whether a client is what a page of welcomes leaves: each stands under its cursor, as it
/// came and received only; the client has read up to the last; every other welcome is as
/// it was, and so is everything else.
pub open spec fn took_welcomes(
    before: ClientView,
    after: ClientView,
    welcomes: Seq<WelcomeDeliveryView>,
) -> bool {
    &&& after == (ClientView {
        welcomes: after.welcomes,
        welcome_cursor: welcomes.last().cursor,
        ..before
    })
    &&& forall|i: int|
        0 <= i < welcomes.len() ==> after.welcomes.contains_key((#[trigger] welcomes[i]).cursor)
            && after.welcomes[welcomes[i].cursor] == (WelcomeInboxRowView {
            record: WelcomeDelivery::encoded(welcomes[i]),
            state: Arrival::Received,
        })
    &&& forall|cursor: u64| #[trigger]
        before.welcomes.contains_key(cursor) ==> after.welcomes.contains_key(cursor)
            && after.welcomes[cursor] == before.welcomes[cursor]
    &&& forall|cursor: u64| #[trigger]
        after.welcomes.contains_key(cursor) ==> before.welcomes.contains_key(cursor) || is_cursor(
            welcomes,
            cursor,
        )
}

/// Whether a cursor is one of some welcomes.
pub open spec fn is_cursor(welcomes: Seq<WelcomeDeliveryView>, cursor: u64) -> bool {
    exists|i: int| 0 <= i < welcomes.len() && (#[trigger] welcomes[i]).cursor == cursor
}

/// Whether welcomes come for a user, each behind the one before it and the first behind a
/// cursor.
pub open spec fn come_in_turn(welcomes: Seq<WelcomeDeliveryView>, user: UserId, last: u64) -> bool {
    &&& forall|i: int|
        0 <= i < welcomes.len() ==> (#[trigger] welcomes[i]).attachment.recipient == user
            && welcomes[i].cursor > last
    &&& forall|i: int, j: int|
        0 <= i < j < welcomes.len() ==> (#[trigger] welcomes[i]).cursor < (
        #[trigger] welcomes[j]).cursor
}

/// Whether welcomes stand under their cursors now, and every other as it was.
#[verifier::opaque]
spec fn rows_taken(
    before: ClientView,
    after: ClientView,
    welcomes: Seq<WelcomeDeliveryView>,
) -> bool {
    &&& after == (ClientView { welcomes: after.welcomes, ..before })
    &&& forall|i: int|
        0 <= i < welcomes.len() ==> after.welcomes.contains_key((#[trigger] welcomes[i]).cursor)
            && after.welcomes[welcomes[i].cursor] == (WelcomeInboxRowView {
            record: WelcomeDelivery::encoded(welcomes[i]),
            state: Arrival::Received,
        })
    &&& forall|cursor: u64| #[trigger]
        before.welcomes.contains_key(cursor) ==> after.welcomes.contains_key(cursor)
            && after.welcomes[cursor] == before.welcomes[cursor]
    &&& forall|cursor: u64| #[trigger]
        after.welcomes.contains_key(cursor) ==> before.welcomes.contains_key(cursor) || is_cursor(
            welcomes,
            cursor,
        )
}

proof fn rows_in_turn(
    view: ClientView,
    user: UserId,
    last: u64,
    welcomes: Seq<WelcomeDeliveryView>,
)
    requires
        welcome_rows(view, user, last, welcomes) is Ok,
    ensures
        come_in_turn(welcomes, user, last),
    decreases welcomes.len(),
{
    if welcomes.len() > 0 {
        let others = welcomes.skip(1);
        rows_in_turn(view, user, welcomes[0].cursor, others);
        assert(forall|i: int| 1 <= i < welcomes.len() ==> #[trigger] welcomes[i] == others[i - 1]);
    }
}

proof fn one_more_taken(
    view: ClientView,
    middle: ClientView,
    after: ClientView,
    welcomes: Seq<WelcomeDeliveryView>,
)
    requires
        welcomes.len() > 0,
        !view.welcomes.contains_key(welcomes[0].cursor),
        middle == client_applied(
            view,
            ClientChangeView::Welcome {
                cursor: welcomes[0].cursor,
                record: WelcomeDelivery::encoded(welcomes[0]),
            },
        ),
        rows_taken(middle, after, welcomes.skip(1)),
    ensures
        rows_taken(view, after, welcomes),
{
    reveal(rows_taken);
    let others = welcomes.skip(1);
    assert(middle.welcomes.contains_key(welcomes[0].cursor));
    assert forall|i: int| 0 <= i < welcomes.len() implies after.welcomes.contains_key(
        (#[trigger] welcomes[i]).cursor,
    ) && after.welcomes[welcomes[i].cursor] == (WelcomeInboxRowView {
        record: WelcomeDelivery::encoded(welcomes[i]),
        state: Arrival::Received,
    }) by {
        if i > 0 {
            assert(welcomes[i] == others[i - 1]);
        }
    }
    assert forall|cursor: u64| #[trigger] view.welcomes.contains_key(
        cursor,
    ) implies after.welcomes.contains_key(cursor) && after.welcomes[cursor]
        == view.welcomes[cursor] by {
        assert(middle.welcomes.contains_key(cursor));
    }
    assert forall|cursor: u64| #[trigger] after.welcomes.contains_key(
        cursor,
    ) implies view.welcomes.contains_key(cursor) || is_cursor(welcomes, cursor) by {
        if !view.welcomes.contains_key(cursor) {
            if is_cursor(others, cursor) {
                let k = choose|k: int|
                    0 <= k < others.len() && (#[trigger] others[k]).cursor == cursor;
                assert(welcomes[k + 1].cursor == cursor);
            } else {
                assert(middle.welcomes.contains_key(cursor));
                assert(welcomes[0].cursor == cursor);
            }
        }
    }
}

proof fn rows_are_taken(
    view: ClientView,
    user: UserId,
    last: u64,
    welcomes: Seq<WelcomeDeliveryView>,
)
    requires
        welcome_rows(view, user, last, welcomes) is Ok,
    ensures
        rows_taken(
            view,
            client_all_applied(view, welcome_rows(view, user, last, welcomes)->Ok_0),
            welcomes,
        ),
    decreases welcomes.len(),
{
    applied_nothing(view);
    if welcomes.len() > 0 {
        let first = welcomes[0];
        let others = welcomes.skip(1);
        let rest = welcome_rows(view, user, first.cursor, others)->Ok_0;
        let change = ClientChangeView::Welcome {
            cursor: first.cursor,
            record: WelcomeDelivery::encoded(first),
        };
        let middle = client_applied(view, change);
        same_rows(view, middle, user, first.cursor, others);
        rows_are_taken(middle, user, first.cursor, others);
        applied_one(view, change);
        applied_in_parts(view, seq![change], rest);
        one_more_taken(view, middle, client_all_applied(middle, rest), welcomes);
    } else {
        reveal(rows_taken);
    }
}

proof fn taken_up_to_the_last(
    view: ClientView,
    middle: ClientView,
    welcomes: Seq<WelcomeDeliveryView>,
)
    requires
        rows_taken(view, middle, welcomes),
    ensures
        took_welcomes(
            view,
            ClientView { welcome_cursor: welcomes.last().cursor, ..middle },
            welcomes,
        ),
{
    reveal(rows_taken);
}

/// Whether rows can be taken depends on cursors behind the last alone.
proof fn same_rows(
    view: ClientView,
    middle: ClientView,
    user: UserId,
    last: u64,
    welcomes: Seq<WelcomeDeliveryView>,
)
    requires
        forall|cursor: u64|
            cursor > last ==> (#[trigger] middle.welcomes.contains_key(cursor))
                == view.welcomes.contains_key(cursor),
    ensures
        welcome_rows(middle, user, last, welcomes) == welcome_rows(view, user, last, welcomes),
    decreases welcomes.len(),
{
    if welcomes.len() > 0 && welcomes[0].cursor > last {
        same_rows(view, middle, user, welcomes[0].cursor, welcomes.skip(1));
    }
}

/// What welcomes are counted as: their bodies and a kibibyte for each.
pub open spec fn bytes_of(welcomes: Seq<WelcomeDeliveryView>) -> int {
    welcomes.fold_left(
        0int,
        |sum: int, welcome: WelcomeDeliveryView| sum + welcome.attachment.body.len() + 1024,
    )
}

/// Whether a client can take welcomes: they come in turn, none is known or too large, the
/// cursors can be stored, and the budget has room for all.
pub open spec fn welcomes_takable(
    view: ClientView,
    budget: u64,
    user: UserId,
    cursor: u64,
    welcomes: Seq<WelcomeDeliveryView>,
    size: DatabaseSize,
) -> bool {
    &&& come_in_turn(welcomes, user, cursor)
    &&& forall|i: int|
        0 <= i < welcomes.len() ==> (#[trigger] welcomes[i]).cursor <= 0x7fff_ffff_ffff_ffff
            && !view.welcomes.contains_key(welcomes[i].cursor) && WelcomeDelivery::encoded(
            welcomes[i],
        ).len() <= 786432
    &&& bytes_of(welcomes) <= 0xffff_ffff
    &&& size.page_count * size.page_size + 3 * bytes_of(welcomes) + 65536 <= budget
}

proof fn bytes_counted(welcomes: Seq<WelcomeDeliveryView>)
    ensures
        bytes_of(welcomes) >= 0,
        bytes_of(welcomes) <= 0xffff_ffff ==> crate::client::sync::welcome_bytes(welcomes)
            == bytes_of(welcomes),
    decreases welcomes.len(),
{
    if welcomes.len() > 0 {
        bytes_counted(welcomes.drop_last());
    }
}

proof fn rows_are_owed(
    view: ClientView,
    user: UserId,
    last: u64,
    welcomes: Seq<WelcomeDeliveryView>,
)
    requires
        come_in_turn(welcomes, user, last),
        forall|i: int|
            0 <= i < welcomes.len() ==> (#[trigger] welcomes[i]).cursor <= 0x7fff_ffff_ffff_ffff
                && !view.welcomes.contains_key(welcomes[i].cursor) && WelcomeDelivery::encoded(
                welcomes[i],
            ).len() <= 786432,
    ensures
        welcome_rows(view, user, last, welcomes) is Ok,
    decreases welcomes.len(),
{
    if welcomes.len() > 0 {
        let others = welcomes.skip(1);
        assert(forall|i: int| 0 <= i < others.len() ==> #[trigger] others[i] == welcomes[i + 1]);
        rows_are_owed(view, user, welcomes[0].cursor, others);
    }
}

proof fn welcome_page_is_taken(
    view: ClientView,
    budget: u64,
    user: UserId,
    cursor: u64,
    welcomes: Seq<WelcomeDeliveryView>,
    size: DatabaseSize,
)
    requires
        welcomes.len() > 0,
        welcome_page_rows(view, budget, user, cursor, welcomes, size) is Ok,
    ensures
        come_in_turn(welcomes, user, cursor),
        took_welcomes(
            view,
            client_all_applied(
                view,
                welcome_page_rows(view, budget, user, cursor, welcomes, size)->Ok_0,
            ),
            welcomes,
        ),
{
    let rows = welcome_rows(view, user, cursor, welcomes)->Ok_0;
    let last = ClientChangeView::WelcomeCursor { cursor: welcomes.last().cursor };
    let middle = client_all_applied(view, rows);
    rows_in_turn(view, user, cursor, welcomes);
    rows_are_taken(view, user, cursor, welcomes);
    applied_in_parts(view, rows, seq![last]);
    applied_one(middle, last);
    taken_up_to_the_last(view, middle, welcomes);
}

/// Reading welcomes: the answer is refused where it is none behind the cursor that was
/// asked for, or goes on with nothing. With no welcome the client joins what waits. Any
/// others are for the client and come in turn behind that cursor, and are taken, unless
/// the client cannot take them; then
/// the client asks for more behind them where there are, and otherwise joins.
pub proof fn reading_welcomes(
    view: ClientView,
    budget: u64,
    user: UserId,
    cursor: u64,
    behind: u64,
    welcomes: Seq<WelcomeDeliveryView>,
    more: bool,
    size: DatabaseSize,
)
    requires
        budget < u64::MAX,
    ensures
        ({
            let answer = SyncEventView::Answer(
                ResponseView::Welcomes { after_cursor: behind, welcomes, more },
            );
            match sync_step(
                view,
                budget,
                user,
                SyncStateView::Welcomes { cursor },
                answer,
                size,
            ) {
                Ok((next, SyncActionView::Join)) => next == SyncStateView::Joining && behind
                    == cursor && welcomes.len() == 0 && !more,
                Ok((next, SyncActionView::Write(changes))) => {
                    &&& next == SyncStateView::WelcomesWritten { more }
                    &&& behind == cursor
                    &&& welcomes.len() > 0
                    &&& come_in_turn(welcomes, user, cursor)
                    &&& took_welcomes(view, client_all_applied(view, changes), welcomes)
                },
                Ok(_) => false,
                Err(_) => {
                    ||| behind != cursor
                    ||| more && welcomes.len() == 0
                    ||| !welcomes_takable(view, budget, user, cursor, welcomes, size)
                },
            }
        }),
        sync_step(
            view,
            budget,
            user,
            SyncStateView::WelcomesWritten { more },
            SyncEventView::Written,
            size,
        ) matches Ok((next, action)) && (if more {
            next == (SyncStateView::Welcomes { cursor: view.welcome_cursor }) && action
                == SyncActionView::Ask(
                RequestView::FetchWelcomes { after_cursor: view.welcome_cursor },
            )
        } else {
            next == SyncStateView::Joining && action == SyncActionView::Join
        }),
{
    if welcomes_takable(view, budget, user, cursor, welcomes, size) {
        rows_are_owed(view, user, cursor, welcomes);
        bytes_counted(welcomes);
        budget_is_kept(size, bytes_of(welcomes) as nat, budget);
    }
    if welcomes.len() > 0 && welcome_page_rows(view, budget, user, cursor, welcomes, size) is Ok {
        welcome_page_is_taken(view, budget, user, cursor, welcomes, size);
    }
}

/// Whether the head of a room can be taken: the room comes behind the last one, and its
/// head is a number that can be stored and not below where the client stands; and the
/// room has a name.
pub open spec fn head_takable(view: ClientView, list: RoomListView) -> bool {
    let head = list.heads[list.at as int];
    &&& list.after matches Some(last) ==> room_order(last) < room_order(head.room)
    &&& position_in(view, head.room) <= head.sequence <= 0x7fff_ffff_ffff_ffff
    &&& normalized_name(head.name) is Ok
}

/// Whether a turn takes up the head that a list is at: it lists the room, under its name,
/// as one that the client subscribes to unless it was known before. Behind the last head
/// it asks for the next page where the index goes on, and otherwise ends. Only a head
/// that cannot be taken is refused.
pub open spec fn takes_up(
    view: ClientView,
    list: RoomListView,
    step: Result<(SyncStateView, SyncActionView), crate::client::journal::EngineError>,
) -> bool {
    if list.at < list.heads.len() {
        let head = list.heads[list.at as int];
        match step {
            Ok((next, SyncActionView::Write(changes))) => {
                &&& head_takable(view, list)
                &&& next == SyncStateView::HeadWritten(
                    RoomListView { after: Some(head.room), ..list },
                )
                &&& client_all_applied(view, changes) == (ClientView {
                    rooms: view.rooms.insert(
                        head.room,
                        RoomEntryView {
                            name: normalized_name(head.name)->Ok_0,
                            origin: if view.rooms.contains_key(head.room) {
                                view.rooms[head.room].origin
                            } else {
                                "subscribed"@
                            },
                        },
                    ),
                    ..view
                })
            },
            Ok(_) => false,
            Err(_) => !head_takable(view, list),
        }
    } else if list.more {
        step == Ok::<(SyncStateView, SyncActionView), crate::client::journal::EngineError>(
            (
                SyncStateView::Index { after: list.after },
                SyncActionView::Ask(RequestView::SyncIndex { after_room: list.after }),
            ),
        )
    } else {
        step == Ok::<(SyncStateView, SyncActionView), crate::client::journal::EngineError>(
            (SyncStateView::Done, SyncActionView::Finish),
        )
    }
}

proof fn head_is_taken_up(view: ClientView, list: RoomListView)
    ensures
        takes_up(view, list, crate::client::sync::head_step(view, list)),
{
    if list.at < list.heads.len() {
        let head = list.heads[list.at as int];
        listing_a_room(view, head.room, head.name, "subscribed"@);
    }
}

/// Reading the index: a page that goes on with nothing is refused; of any other the first
/// head is taken up. A room with an attempt that waits is left for the next head, in any
/// other its group is looked for. Without it the room is left too; with it its events
/// behind where the client stands are asked for, up to the announced head, and then it
/// is left.
pub proof fn reading_the_index(
    view: ClientView,
    budget: u64,
    user: UserId,
    behind: Option<RoomId>,
    page: RoomListView,
    list: RoomListView,
    found: bool,
    size: DatabaseSize,
)
    requires
        page.after == behind,
        page.at == 0,
        list.at < list.heads.len(),
    ensures
        ({
            let step = sync_step(
                view,
                budget,
                user,
                SyncStateView::Index { after: behind },
                SyncEventView::Answer(
                    ResponseView::SyncIndex { rooms: page.heads, more: page.more },
                ),
                size,
            );
            if page.more && page.heads.len() == 0 {
                step is Err
            } else {
                takes_up(view, page, step)
            }
        }),
        ({
            let room = list.heads[list.at as int].room;
            let head = list.heads[list.at as int].sequence;
            let position = position_in(view, room);
            let left = RoomListView { at: list.at + 1, ..list };
            let written = sync_step(
                view,
                budget,
                user,
                SyncStateView::HeadWritten(list),
                SyncEventView::Written,
                size,
            );
            let looked = sync_step(
                view,
                budget,
                user,
                SyncStateView::Finding(list),
                SyncEventView::Group(found),
                size,
            );
            &&& has_attempt(view, room) ==> takes_up(view, left, written)
            &&& !has_attempt(view, room) ==> written == Ok::<
                (SyncStateView, SyncActionView),
                crate::client::journal::EngineError,
            >((SyncStateView::Finding(list), SyncActionView::FindGroup(room)))
            &&& !found || position >= head ==> takes_up(view, left, looked)
            &&& found && position < head ==> looked == Ok::<
                (SyncStateView, SyncActionView),
                crate::client::journal::EngineError,
            >(
                (
                    SyncStateView::Events { rooms: list, cursor: position },
                    SyncActionView::Ask(
                        RequestView::FetchRoomEvents { room, after_sequence: position },
                    ),
                ),
            )
        }),
{
    let room = list.heads[list.at as int].room;
    head_is_taken_up(view, page);
    head_is_taken_up(view, RoomListView { at: list.at + 1, ..list });
    if view.intents.contains_key(room) {
        if let Some(attempt) = view.intents[room].attempt {
            waiting_is_indexed(view.outbox, attempt);
        }
    }
}

/// Whether a turn takes in the event that a page is at: it belongs to the room that is
/// worked on and follows the one before it, and it is received. Only one that is not so,
/// or that the client cannot receive, is refused.
pub open spec fn takes_in(
    view: ClientView,
    budget: u64,
    size: DatabaseSize,
    page: EventListView,
    step: Result<(SyncStateView, SyncActionView), crate::client::journal::EngineError>,
) -> bool {
    let event = page.events[page.at as int];
    match step {
        Ok((next, SyncActionView::Write(changes))) => {
            let after = client_all_applied(view, changes);
            &&& event.operation.room == page.rooms.heads[page.rooms.at as int].room
            &&& event.operation.parent == page.cursor + page.at
            &&& next == SyncStateView::EventWritten(page)
            &&& after == (ClientView { inbox: after.inbox, ..view })
            &&& after.inbox == (if view.inbox.contains_key(event.id) {
                view.inbox
            } else {
                view.inbox.insert(
                    event.id,
                    InboxRowView {
                        room: event.operation.room,
                        sequence: (event.operation.parent + 1) as u64,
                        record: Event::encoded(event),
                        state: Arrival::Received,
                    },
                )
            })
            &&& after.inbox[event.id].record == Event::encoded(event)
        },
        Ok(_) => false,
        Err(_) => {
            ||| event.operation.room != page.rooms.heads[page.rooms.at as int].room
            ||| event.operation.parent != page.cursor + page.at
            ||| !receivable(view, budget, event, size)
        },
    }
}

/// Reading events: the answer is refused where it is none for the room and behind the
/// position that was asked for, or is empty. All events of a page are taken in, in turn,
/// and then applied, in turn; where one was blocked the room is left, and behind the
/// last one the room is asked for what comes behind where the client stands by then, up
/// to the announced head.
pub proof fn reading_events(
    view: ClientView,
    budget: u64,
    user: UserId,
    page: EventListView,
    room: RoomId,
    behind: u64,
    more: bool,
    goes_on: bool,
    size: DatabaseSize,
)
    requires
        budget < u64::MAX,
        page.rooms.at < page.rooms.heads.len(),
        page.at < page.events.len(),
    ensures
        ({
            let worked = page.rooms.heads[page.rooms.at as int];
            let position = position_in(view, worked.room);
            let start = EventListView { at: 0, ..page };
            let next = EventListView { at: page.at + 1, ..page };
            let last = page.at + 1 == page.events.len();
            let answered = sync_step(
                view,
                budget,
                user,
                SyncStateView::Events { rooms: page.rooms, cursor: page.cursor },
                SyncEventView::Answer(
                    ResponseView::RoomEvents {
                        room,
                        after_sequence: behind,
                        events: page.events,
                        more,
                    },
                ),
                size,
            );
            let written = sync_step(
                view,
                budget,
                user,
                SyncStateView::EventWritten(page),
                SyncEventView::Written,
                size,
            );
            let applied = sync_step(
                view,
                budget,
                user,
                SyncStateView::Applying(page),
                SyncEventView::Applied(goes_on),
                size,
            );
            &&& room != worked.room || behind != page.cursor ==> answered is Err
            &&& room == worked.room && behind == page.cursor ==> takes_in(
                view,
                budget,
                size,
                start,
                answered,
            )
            &&& !last ==> takes_in(view, budget, size, next, written)
            &&& last ==> written == Ok::<
                (SyncStateView, SyncActionView),
                crate::client::journal::EngineError,
            >((SyncStateView::Applying(start), SyncActionView::Apply(page.events[0])))
            &&& goes_on && !last ==> applied == Ok::<
                (SyncStateView, SyncActionView),
                crate::client::journal::EngineError,
            >(
                (
                    SyncStateView::Applying(next),
                    SyncActionView::Apply(page.events[page.at as int + 1]),
                ),
            )
            &&& goes_on && last && position < worked.sequence ==> applied == Ok::<
                (SyncStateView, SyncActionView),
                crate::client::journal::EngineError,
            >(
                (
                    SyncStateView::Events { rooms: page.rooms, cursor: position },
                    SyncActionView::Ask(
                        RequestView::FetchRoomEvents {
                            room: worked.room,
                            after_sequence: position,
                        },
                    ),
                ),
            )
            &&& !goes_on || (last && position >= worked.sequence) ==> takes_up(
                view,
                RoomListView { at: page.rooms.at + 1, ..page.rooms },
                applied,
            )
        }),
{
    head_is_taken_up(view, RoomListView { at: page.rooms.at + 1, ..page.rooms });
    event_is_taken_in(view, budget, EventListView { at: 0, ..page }, size);
    if page.at + 1 < page.events.len() {
        event_is_taken_in(view, budget, EventListView { at: page.at + 1, ..page }, size);
    }
}

proof fn event_is_taken_in(
    view: ClientView,
    budget: u64,
    page: EventListView,
    size: DatabaseSize,
)
    requires
        budget < u64::MAX,
        page.at < page.events.len(),
    ensures
        takes_in(
            view,
            budget,
            size,
            page,
            crate::client::sync::event_step(view, budget, page, size),
        ),
{
    let event = page.events[page.at as int];
    receivable_is_received(view, budget, event, size);
    if Event::encoded(event).len() <= 786432 {
        receiving_an_event(view, budget, event, size);
    }
}

/// Catching up starts with the welcomes behind the last one that the client read; once what
/// waited was joined, the index is read from its start.
pub proof fn starting_to_catch_up(
    view: ClientView,
    budget: u64,
    user: UserId,
    size: DatabaseSize,
)
    ensures
        sync_step(
            view,
            budget,
            user,
            SyncStateView::Idle,
            SyncEventView::Start,
            size,
        ) matches Ok((next, action)) && next == (SyncStateView::Welcomes {
            cursor: view.welcome_cursor,
        }) && action == SyncActionView::Ask(
            RequestView::FetchWelcomes { after_cursor: view.welcome_cursor },
        ),
        sync_step(
            view,
            budget,
            user,
            SyncStateView::Joining,
            SyncEventView::Joined,
            size,
        ) matches Ok((next, action)) && next == (SyncStateView::Index { after: None })
            && action == SyncActionView::Ask(RequestView::SyncIndex { after_room: None }),
{
}

} // verus!
