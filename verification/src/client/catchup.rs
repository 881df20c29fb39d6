//! What a client has done by the time it has caught up.
use vstd::prelude::*;
use crate::client::store::DatabaseSize;
use crate::client::sync::{
    sync_step, RoomListView, SyncActionView, SyncEventView, SyncStateView, SyncStep,
};
use crate::client::tables::{outbox_has, ClientView, OutboxRowView};
use crate::delivery::{EventView, RoomHeadView};
use crate::ids::{MessageId, RoomId, UserId};
use crate::requests::{RequestView, ResponseView};

verus! {

/// One turn of catching up: what the client holds, what happened, and what it does about
/// it.
pub struct Turn {
    pub view: ClientView,
    pub budget: u64,
    pub size: DatabaseSize,
    pub state: SyncStateView,
    pub event: SyncEventView,
    pub next: SyncStateView,
    pub action: SyncActionView,
}

/// Whether turns follow each other from the start.
pub open spec fn catches_up(user: UserId, turns: Seq<Turn>) -> bool {
    &&& turns.len() > 0
    &&& turns[0].state == SyncStateView::Idle
    &&& forall|i: int| 0 <= i < turns.len() ==> taken(user, #[trigger] turns[i])
    &&& forall|i: int|
        0 < i < turns.len() ==> (#[trigger] turns[i]).state == turns[i - 1].next
}

/// Whether a turn is what the client does.
#[verifier::opaque]
pub open spec fn taken(user: UserId, turn: Turn) -> bool {
    sync_step(turn.view, turn.budget, user, turn.state, turn.event, turn.size) == SyncStep::Ok(
        (turn.next, turn.action),
    )
}

/// Whether a request waits in the journal.
pub open spec fn waits(outbox: Seq<OutboxRowView>, id: MessageId) -> bool {
    exists|i: int| 0 <= i < outbox.len() && (#[trigger] outbox[i]).request_id == id
}

/// Whether a client has an attempt in a room that waits and was not heard back.
pub open spec fn has_attempt(view: ClientView, room: RoomId) -> bool {
    &&& view.intents.contains_key(room)
    &&& view.intents[room].attempt matches Some(attempt) && waits(view.outbox, attempt)
        && !view.inbox.contains_key(attempt)
}

/// Whether a client stands at a position of a room, or behind it.
pub open spec fn stands(view: ClientView, room: RoomId, sequence: u64) -> bool {
    sequence == 0 || (view.cursors.contains_key(room) && view.cursors[room] >= sequence)
}

/// Whether a client could leave a room at a turn: it stands at the announced head, it
/// has an attempt that waits, it looked for the room's group and found none, or an
/// event of the room was applied and blocked it.
pub open spec fn may_leave(turns: Seq<Turn>, at: int, head: RoomHeadView) -> bool {
    ||| stands(turns[at].view, head.room, head.sequence)
    ||| has_attempt(turns[at].view, head.room)
    ||| turns[at].event == SyncEventView::Group(false) && at > 0 && turns[at - 1].action
        == SyncActionView::FindGroup(head.room)
    ||| turns[at].event == SyncEventView::Applied(false) && at > 0 && (turns[at
        - 1].action matches SyncActionView::Apply(event) && event.operation.room == head.room)
}

/// Whether a room of the index was left between two turns.
pub open spec fn was_left(turns: Seq<Turn>, from: int, to: int, head: RoomHeadView) -> bool {
    exists|at: int| from <= at <= to && #[trigger] may_leave(turns, at, head)
}

/// Whether a page of the index was asked for between two turns.
pub open spec fn was_asked(turns: Seq<Turn>, from: int, to: int, after: Option<RoomId>) -> bool {
    exists|at: int|
        from <= at <= to && (#[trigger] turns[at]).action == SyncActionView::Ask(
            RequestView::SyncIndex { after_room: after },
        )
}

/// The page of the index that a state works on.
spec fn list_of(state: SyncStateView) -> Option<RoomListView> {
    match state {
        SyncStateView::HeadWritten(rooms) => Some(rooms),
        SyncStateView::Finding(rooms) => Some(rooms),
        SyncStateView::Events { rooms, .. } => Some(rooms),
        SyncStateView::EventWritten(page) => Some(page.rooms),
        SyncStateView::Applying(page) => Some(page.rooms),
        _ => None,
    }
}

spec fn all_of(events: Seq<EventView>, count: int, room: RoomId) -> bool {
    forall|i: int| 0 <= i < count ==> (#[trigger] events[i]).operation.room == room
}

/// What the action says of the state that it leaves behind.
spec fn in_step(state: SyncStateView, action: SyncActionView) -> bool {
    match state {
        SyncStateView::Finding(rooms) => action == SyncActionView::FindGroup(
            rooms.heads[rooms.at as int].room,
        ),
        SyncStateView::EventWritten(page) => page.at < page.events.len() && all_of(
            page.events,
            page.at as int + 1,
            page.rooms.heads[page.rooms.at as int].room,
        ),
        SyncStateView::Applying(page) => page.at < page.events.len() && action
            == SyncActionView::Apply(page.events[page.at as int]) && all_of(
            page.events,
            page.events.len() as int,
            page.rooms.heads[page.rooms.at as int].room,
        ),
        _ => true,
    }
}

/// Whether a state works on the head of a page.
spec fn works_on(state: SyncStateView, rooms: Seq<RoomHeadView>, more: bool, at: int) -> bool {
    &&& 0 <= at < rooms.len()
    &&& list_of(state) == Some(
        RoomListView { after: Some(rooms[at].room), heads: rooms, at: at as nat, more },
    )
}

/// Whether a turn goes from the heads before a position on to it: to that head, or behind
/// the last one to the next page or to the end.
spec fn goes_on_at(turn: Turn, rooms: Seq<RoomHeadView>, more: bool, at: int) -> bool {
    if at < rooms.len() {
        works_on(turn.next, rooms, more, at)
    } else if more {
        turn.action == SyncActionView::Ask(
            RequestView::SyncIndex { after_room: Some(rooms.last().room) },
        )
    } else {
        turn.action == SyncActionView::Finish
    }
}

pub(crate) proof fn waiting_is_indexed(outbox: Seq<OutboxRowView>, id: MessageId)
    ensures
        outbox_has(outbox, id) == waits(outbox, id),
    decreases outbox.len(),
{
    if outbox.len() > 0 {
        let rest = outbox.skip(1);
        waiting_is_indexed(rest, id);
        if waits(rest, id) {
            let i = choose|i: int| 0 <= i < rest.len() && (#[trigger] rest[i]).request_id == id;
            assert(outbox[i + 1].request_id == id);
        }
        if waits(outbox, id) && outbox[0].request_id != id {
            let i = choose|i: int| 0 <= i < outbox.len() && (#[trigger] outbox[i]).request_id == id;
            assert(rest[i - 1].request_id == id);
        }
    }
}

/// A turn on a head stays on it, or leaves it for a reason and goes on to the next.
#[verifier::rlimit(40)]
#[verifier::spinoff_prover]
proof fn one_turn(
    user: UserId,
    turns: Seq<Turn>,
    i: int,
    rooms: Seq<RoomHeadView>,
    more: bool,
    at: int,
)
    requires
        0 < i < turns.len(),
        taken(user, turns[i]),
        turns[i].state == turns[i - 1].next,
        works_on(turns[i].state, rooms, more, at),
        in_step(turns[i].state, turns[i - 1].action),
    ensures
        in_step(turns[i].next, turns[i].action),
        works_on(turns[i].next, rooms, more, at) || (may_leave(turns, i, rooms[at]) && goes_on_at(
            turns[i],
            rooms,
            more,
            at + 1,
        )),
{
    reveal(taken);
    let turn = turns[i];
    let room = rooms[at].room;
    if turn.view.intents.contains_key(room) {
        if let Some(attempt) = turn.view.intents[room].attempt {
            waiting_is_indexed(turn.view.outbox, attempt);
        }
    }
    match (turn.state, turn.event) {
        (SyncStateView::HeadWritten(list), SyncEventView::Written) => {},
        (SyncStateView::Finding(list), SyncEventView::Group(found)) => {},
        (SyncStateView::Events { .. }, SyncEventView::Answer(response)) => {},
        (SyncStateView::EventWritten(page), SyncEventView::Written) => {},
        (SyncStateView::Applying(page), SyncEventView::Applied(goes_on)) => {},
        _ => {},
    }
}

/// Whether, from one turn to another, a page of the index was worked through up to a head
/// that is still worked on, or to its end.
spec fn worked(
    turns: Seq<Turn>,
    from: int,
    to: int,
    rooms: Seq<RoomHeadView>,
    more: bool,
    at: int,
) -> bool {
    &&& 0 <= at <= rooms.len()
    &&& forall|k: int| 0 <= k < at ==> was_left(turns, from, to, #[trigger] rooms[k])
    &&& if at < rooms.len() {
        works_on(turns[to].next, rooms, more, at) && in_step(turns[to].next, turns[to].action)
    } else {
        more ==> was_asked(turns, from, to, Some(rooms.last().room))
    }
}

proof fn page_is_begun(
    user: UserId,
    turns: Seq<Turn>,
    from: int,
    rooms: Seq<RoomHeadView>,
    more: bool,
)
    requires
        0 <= from < turns.len(),
        taken(user, turns[from]),
        turns[from].event == SyncEventView::Answer(ResponseView::SyncIndex { rooms, more }),
    ensures
        worked(turns, from, from, rooms, more, 0),
{
    reveal(taken);
    assert(turns[from].state is Index);
    if rooms.len() > 0 {
        assert(works_on(turns[from].next, rooms, more, 0));
    }
}

proof fn page_is_worked(
    user: UserId,
    turns: Seq<Turn>,
    from: int,
    to: int,
    rooms: Seq<RoomHeadView>,
    more: bool,
) -> (at: int)
    requires
        catches_up(user, turns),
        0 <= from <= to < turns.len(),
        turns[from].event == SyncEventView::Answer(ResponseView::SyncIndex { rooms, more }),
    ensures
        worked(turns, from, to, rooms, more, at),
    decreases to,
{
    assert(taken(user, turns[to]));
    if to == from {
        page_is_begun(user, turns, from, rooms, more);
        0
    } else {
        let before = page_is_worked(user, turns, from, to - 1, rooms, more);
        assert forall|k: int| 0 <= k < before implies was_left(
            turns,
            from,
            to,
            #[trigger] rooms[k],
        ) by {
            let at = choose|at: int| from <= at <= to - 1 && #[trigger] may_leave(
                turns,
                at,
                rooms[k],
            );
            assert(may_leave(turns, at, rooms[k]));
        }
        if before < rooms.len() {
            one_turn(user, turns, to, rooms, more, before);
            if works_on(turns[to].next, rooms, more, before) {
                before
            } else {
                assert(was_left(turns, from, to, rooms[before]));
                if before + 1 == rooms.len() && more {
                    assert(was_asked(turns, from, to, Some(rooms.last().room)));
                }
                before + 1
            }
        } else {
            if more {
                let at = choose|at: int|
                    from <= at <= to - 1 && (#[trigger] turns[at]).action == SyncActionView::Ask(
                        RequestView::SyncIndex { after_room: Some(rooms.last().room) },
                    );
                assert(turns[at].action == SyncActionView::Ask(
                    RequestView::SyncIndex { after_room: Some(rooms.last().room) },
                ));
            }
            before
        }
    }
}

/// A client that has caught up has left no room behind: for every room on every page of
/// the index that it read, there was a turn at which it stood at the announced head, or
/// had an attempt of its own that waited there, or had looked for the room's group and
/// found none, or was blocked by an event of the room. And where the index went on
/// behind a page, it asked for what comes after the last room of that page, and read
/// the answer.
pub proof fn finished_means_caught_up(user: UserId, turns: Seq<Turn>, page: int)
    requires
        catches_up(user, turns),
        turns.last().action == SyncActionView::Finish,
        0 <= page < turns.len(),
        turns[page].event matches SyncEventView::Answer(ResponseView::SyncIndex { .. }),
    ensures
        turns[page].event matches SyncEventView::Answer(ResponseView::SyncIndex { rooms, more })
            ==> {
            &&& forall|k: int|
                0 <= k < rooms.len() ==> was_left(
                    turns,
                    page,
                    turns.len() - 1,
                    #[trigger] rooms[k],
                )
            &&& more ==> exists|at: int|
                page <= at < turns.len() - 1 && (#[trigger] turns[at]).action
                    == SyncActionView::Ask(
                    RequestView::SyncIndex { after_room: Some(rooms.last().room) },
                ) && turns[at + 1].event is Answer && turns[at + 1].event->Answer_0 is SyncIndex
        },
{
    reveal(taken);
    if let SyncEventView::Answer(ResponseView::SyncIndex { rooms, more }) = turns[page].event {
        let last = turns.len() - 1;
        let at = page_is_worked(user, turns, page, last, rooms, more);
        assert(taken(user, turns[last]));
        assert(turns[last].next is Done);
        assert(at == rooms.len());
        if more {
            let asked = choose|at: int|
                page <= at <= last && (#[trigger] turns[at]).action == SyncActionView::Ask(
                    RequestView::SyncIndex { after_room: Some(rooms.last().room) },
                );
            assert(taken(user, turns[asked]));
            assert(asked < last);
            assert(turns[asked].next is Index);
            assert(taken(user, turns[asked + 1]));
            assert(turns[asked + 1].state == turns[asked].next);
        }
    }
}

/// A client that has caught up has joined what waited for it and then read the index from
/// its start.
pub proof fn finished_means_index_was_read(user: UserId, turns: Seq<Turn>)
    requires
        catches_up(user, turns),
        turns.last().action == SyncActionView::Finish,
    ensures
        exists|at: int|
            0 < at < turns.len() - 1 && (#[trigger] turns[at]).action == SyncActionView::Ask(
                RequestView::SyncIndex { after_room: None },
            ) && turns[at].event == SyncEventView::Joined && turns[at - 1].action
                == SyncActionView::Join && turns[at + 1].event is Answer && turns[at
                + 1].event->Answer_0 is SyncIndex,
{
    reveal(taken);
    let last = turns.len() - 1;
    assert(taken(user, turns[last]));
    assert(turns[last].next is Done);
    reached_through_joining(user, turns, last);
    let at = choose|at: int|
        0 < at <= last && (#[trigger] turns[at]).action == SyncActionView::Ask(
            RequestView::SyncIndex { after_room: None },
        ) && turns[at].event == SyncEventView::Joined && turns[at - 1].action
            == SyncActionView::Join;
    assert(taken(user, turns[at]));
    assert(at < last);
    assert(taken(user, turns[at + 1]));
    assert(turns[at + 1].state == turns[at].next);
}

proof fn reached_through_joining(user: UserId, turns: Seq<Turn>, to: int)
    requires
        catches_up(user, turns),
        0 <= to < turns.len(),
    ensures
        turns[to].next is Joining ==> turns[to].action == SyncActionView::Join,
        turns[to].next is Welcomes || turns[to].next is WelcomesWritten || turns[to].next is Joining
            || exists|at: int|
            0 < at <= to && (#[trigger] turns[at]).action == SyncActionView::Ask(
                RequestView::SyncIndex { after_room: None },
            ) && turns[at].event == SyncEventView::Joined && turns[at - 1].action
                == SyncActionView::Join,
    decreases to,
{
    reveal(taken);
    assert(taken(user, turns[to]));
    if to > 0 {
        reached_through_joining(user, turns, to - 1);
        assert(turns[to].state == turns[to - 1].next);
        if turns[to].state is Joining {
            assert(turns[to].action == SyncActionView::Ask(
                RequestView::SyncIndex { after_room: None },
            ));
        }
    }
}

} // verus!
