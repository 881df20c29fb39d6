//! What clients can rely on, over any number of deliveries.
use vstd::prelude::*;
use crate::delivery::{AppendView, Event, EventView, MAX_PAYLOAD};
use crate::ids::{MessageId, RoomId, UserId};
use crate::protocol::decoded;
use crate::relay::deliver::{execution, outcome, quiet, reads_only, with_charges, OutcomeView};
use crate::relay::limits::{admission, charge, StorageFacts, StorageLimits};
use crate::relay::reads::{
    event_sizes, events_behind, events_read, page_length, page_length_bounds, room_page, PAGE_BYTES,
};
use crate::relay::service::{
    execution_admitted, journal_untouched, journals, outcome_admitted,
};
use crate::relay::sound::{
    event_row_sound, first_room_known, holds_event, kept_answer_bounded, operation_bounded, sound,
    welcome_bounded,
};
use crate::relay::tables::{
    admitted, all_admitted, all_applied, applied, charged, event_known, first_package, in_order,
    last_cursor, room_head, room_known, ChangeView, EventRowView, RelayView, StorageError,
    MAX_NUMBER,
};
use crate::relay::writes::{
    extension, first_room, operation_valid, recent_allocations, recent_pair_allocations,
    reservation, welcoming, MAX_ALLOCATIONS_PER_PAIR, MAX_ALLOCATIONS_PER_RECIPIENT,
};
use crate::requests::{Rejection, Request, RequestView, Response, ResponseView};
use crate::sequences::{filter_members, filter_of_filter, filter_suffix};
use crate::transcripts::request_hash;
use crate::wire::Wire;

verus! {

/// Whether an outcome keeps its answer for retries.
pub open spec fn keeps_answer(done: OutcomeView) -> bool {
    done.changes.len() > 0 && done.changes.last() is Request
}

proof fn submaps_chain<K, V>(first: Map<K, V>, second: Map<K, V>, third: Map<K, V>)
    requires
        first.submap_of(second),
        second.submap_of(third),
    ensures
        first.submap_of(third),
{
    assert forall|key: K| #[trigger] first.dom().contains(key) implies third.dom().contains(key)
        && first[key] == third[key] by {
        assert(second.dom().contains(key));
    }
}

proof fn prefixes_chain<A>(first: Seq<A>, second: Seq<A>, third: Seq<A>)
    requires
        first.is_prefix_of(second),
        second.is_prefix_of(third),
    ensures
        first.is_prefix_of(third),
{
    assert(first =~= third.take(first.len() as int)) by {
        assert forall|i: int| 0 <= i < first.len() implies first[i] == third[i] by {
            assert(first[i] == second[i]);
            assert(second[i] == third[i]);
        }
    }
}

proof fn change_only_adds(view: RelayView, change: ChangeView)
    requires
        admitted(view, change),
    ensures
        view.requests.submap_of(applied(view, change).requests),
        view.events.is_prefix_of(applied(view, change).events),
        view.welcomes.is_prefix_of(applied(view, change).welcomes),
{
    let after = applied(view, change);
    assert forall|key: (UserId, MessageId)| #[trigger] view.requests.dom().contains(
        key,
    ) implies after.requests.dom().contains(key) && view.requests[key] == after.requests[key] by {
        if let ChangeView::Request { user, id, .. } = change {
            assert(key != (user, id));
        }
    }
    assert(view.events =~= after.events.take(view.events.len() as int));
    assert(view.welcomes =~= after.welcomes.take(view.welcomes.len() as int));
}

/// Changes only add: kept answers, events and welcomes stay as they are.
pub proof fn changes_only_add(view: RelayView, changes: Seq<ChangeView>)
    requires
        all_admitted(view, changes),
    ensures
        view.requests.submap_of(all_applied(view, changes).requests),
        view.events.is_prefix_of(all_applied(view, changes).events),
        view.welcomes.is_prefix_of(all_applied(view, changes).welcomes),
    decreases changes.len(),
{
    if changes.len() > 0 {
        let before = all_applied(view, changes.drop_last());
        changes_only_add(view, changes.drop_last());
        let after = applied(before, changes.last());
        change_only_adds(before, changes.last());
        submaps_chain(view.requests, before.requests, after.requests);
        prefixes_chain(view.events, before.events, after.events);
        prefixes_chain(view.welcomes, before.welcomes, after.welcomes);
    }
}

/// No delivery takes back an answer, an event or a welcome.
pub proof fn deliveries_only_add(
    view: RelayView,
    limits: StorageLimits,
    facts: StorageFacts,
    user: UserId,
    id: MessageId,
    request: RequestView,
    now: i64,
    fresh: Option<RoomId>,
)
    ensures
        outcome(view, limits, facts, user, id, request, now, fresh) matches Ok(done) ==> {
            let after = all_applied(view, done.changes);
            &&& view.requests.submap_of(after.requests)
            &&& view.events.is_prefix_of(after.events)
            &&& view.welcomes.is_prefix_of(after.welcomes)
        },
{
    outcome_admitted(view, limits, facts, user, id, request, now, fresh);
    if let Ok(done) = outcome(view, limits, facts, user, id, request, now, fresh) {
        changes_only_add(view, done.changes);
    }
}

/// A kept answer is that of the request itself, and comes with its changes, the
/// charges and its row.
pub proof fn kept_outcome(
    view: RelayView,
    limits: StorageLimits,
    facts: StorageFacts,
    user: UserId,
    id: MessageId,
    request: RequestView,
    now: i64,
    fresh: Option<RoomId>,
)
    requires
        outcome(view, limits, facts, user, id, request, now, fresh) matches Ok(done)
            && keeps_answer(done),
    ensures
        execution(view, user, id, request, now, fresh) is Ok,
        !reads_only(request),
        outcome(view, limits, facts, user, id, request, now, fresh)->Ok_0.response == execution(
            view,
            user,
            id,
            request,
            now,
            fresh,
        )->Ok_0.0,
        outcome(view, limits, facts, user, id, request, now, fresh)->Ok_0.changes == with_charges(
            execution(view, user, id, request, now, fresh)->Ok_0.1,
            user,
            request,
        ).push(
            ChangeView::Request {
                user,
                id,
                hash: request_hash(request),
                response: Response::encoded(execution(view, user, id, request, now, fresh)->Ok_0.0),
            },
        ),
        Response::encoded(execution(view, user, id, request, now, fresh)->Ok_0.0).len()
            <= MAX_PAYLOAD,
        Request::encoded(request).len() <= MAX_PAYLOAD,
        request is Acknowledge || admission(limits, view, facts, user, request) == Ok::<
            bool,
            StorageError,
        >(true),
{
    let done = outcome(view, limits, facts, user, id, request, now, fresh)->Ok_0;
    let (response, changes) = execution(view, user, id, request, now, fresh)->Ok_0;
    execution_admitted(view, user, id, request, now, fresh);
    if done.changes == changes {
        assert(!journals(changes[changes.len() - 1]));
    }
}

/// A retry gets the answer that was kept, and changes nothing: whatever was
/// delivered in between, whatever the limits are by then, and however late.
pub proof fn retry_gets_kept_answer(
    view: RelayView,
    limits: StorageLimits,
    facts: StorageFacts,
    user: UserId,
    id: MessageId,
    request: RequestView,
    now: i64,
    fresh: Option<RoomId>,
    later: RelayView,
    limits2: StorageLimits,
    facts2: StorageFacts,
    now2: i64,
    fresh2: Option<RoomId>,
)
    requires
        sound(view),
        outcome(view, limits, facts, user, id, request, now, fresh) matches Ok(done)
            && keeps_answer(done) && all_applied(view, done.changes).requests.submap_of(
            later.requests,
        ),
    ensures
        outcome(later, limits2, facts2, user, id, request, now2, fresh2) == Ok::<
            OutcomeView,
            StorageError,
        >(quiet(outcome(view, limits, facts, user, id, request, now, fresh)->Ok_0.response)),
{
    let done = outcome(view, limits, facts, user, id, request, now, fresh)->Ok_0;
    let (response, changes) = execution(view, user, id, request, now, fresh)->Ok_0;
    kept_outcome(view, limits, facts, user, id, request, now, fresh);
    kept_answer_bounded(view, user, id, request, now, fresh);
    crate::protocol::message_round_trip::<Response>(response);
    let after = all_applied(view, done.changes);
    let kept = done.changes.last();
    assert(after == applied(all_applied(view, done.changes.drop_last()), kept));
    assert(after.requests.contains_key((user, id)));
    assert(later.requests.contains_key((user, id)));
    assert(later.requests[(user, id)] == after.requests[(user, id)]);
}

/// Another request under an identifier that was used is refused, and changes
/// nothing.
pub proof fn reused_identifier_is_refused(
    view: RelayView,
    limits: StorageLimits,
    facts: StorageFacts,
    user: UserId,
    id: MessageId,
    request: RequestView,
    now: i64,
    fresh: Option<RoomId>,
)
    requires
        view.requests.contains_key((user, id)),
        view.requests[(user, id)].hash != request_hash(request),
        Request::encoded(request).len() <= MAX_PAYLOAD,
    ensures
        outcome(view, limits, facts, user, id, request, now, fresh) == Ok::<
            OutcomeView,
            StorageError,
        >(quiet(ResponseView::Rejected(Rejection::RequestConflict))),
{
}

/// A room is extended exactly behind its head, and its head is then the new
/// event.
pub proof fn extension_moves_head(
    view: RelayView,
    user: UserId,
    id: MessageId,
    operation: AppendView,
)
    requires
        extension(view, user, id, operation) matches Ok((response, _)) && response
            is AppendAccepted,
    ensures
        operation.parent == room_head(view.events, operation.room),
        room_head(
            all_applied(view, extension(view, user, id, operation)->Ok_0.1).events,
            operation.room,
        ) == operation.parent + 1,
        all_applied(view, extension(view, user, id, operation)->Ok_0.1).events == view.events.push(
            EventRowView {
                room: operation.room,
                sequence: (operation.parent + 1) as u64,
                id,
                sender: user,
                record: Event::encoded(EventView { id, sender: user, operation }),
            },
        ),
{
    let changes = extension(view, user, id, operation)->Ok_0.1;
    let first = changes[0];
    let after = applied(view, first);
    let none = Seq::<ChangeView>::empty();
    assert(seq![first].drop_last() =~= none);
    assert(all_applied(view, none) == view);
    assert(all_applied(view, seq![first]) == after);
    assert(after.events.drop_last() =~= view.events);
    let more = welcoming(view, user, id, operation)->Ok_0;
    if more.len() == 0 {
        assert(changes =~= seq![first]);
    } else {
        let two = seq![first, more[0]];
        assert(two.drop_last() =~= seq![first]);
        assert(all_applied(view, two) == applied(after, more[0]));
        assert(changes =~= seq![first, more[0], more[1]]);
        assert(changes.drop_last() =~= two);
        assert(all_applied(view, changes) == applied(applied(after, more[0]), more[1]));
    }
}

/// Of two operations on the same head only one is accepted: the other gets the
/// conflict, with the head that is there now.
pub proof fn second_on_same_head_conflicts(
    view: RelayView,
    user: UserId,
    id: MessageId,
    operation: AppendView,
    user2: UserId,
    id2: MessageId,
    operation2: AppendView,
)
    requires
        extension(view, user, id, operation) matches Ok((response, _)) && response
            is AppendAccepted,
        operation2.room == operation.room,
        operation2.parent == operation.parent,
        operation_valid(operation2),
        all_applied(view, extension(view, user, id, operation)->Ok_0.1).subscribers.contains(
            (operation2.room, user2),
        ),
    ensures
        extension(
            all_applied(view, extension(view, user, id, operation)->Ok_0.1),
            user2,
            id2,
            operation2,
        ) == (Ok::<(ResponseView, Seq<ChangeView>), StorageError>(
            (
                ResponseView::HeadConflict {
                    room: operation.room,
                    head: (operation.parent + 1) as u64,
                },
                Seq::empty(),
            ),
        )),
{
    extension_moves_head(view, user, id, operation);
}

/// In sound tables an operation is never lost to a failure: whoever receives a
/// room's events can extend it behind its head with a valid operation under a
/// fresh identifier.
pub proof fn valid_extension_is_accepted(
    view: RelayView,
    user: UserId,
    id: MessageId,
    operation: AppendView,
)
    requires
        sound(view),
        view.subscribers.contains((operation.room, user)),
        operation_valid(operation),
        operation.parent == room_head(view.events, operation.room),
        !event_known(view.events, id),
        last_cursor(view.welcomes) < MAX_NUMBER,
    ensures
        extension(view, user, id, operation) matches Ok((response, _)) && response == (
        ResponseView::AppendAccepted { event: EventView { id, sender: user, operation } }),
{
    let event = EventView { id, sender: user, operation };
    operation_bounded(event);
    assert(room_known(view.rooms, operation.room));
    first_room_known(view.rooms, operation.room);
    if let Some(attachment) = operation.welcome {
        let name = view.rooms[first_room(view.rooms, operation.room) as int].name;
        let delivery = crate::relay::writes::waiting_welcome(name, user, id, operation, attachment);
        welcome_bounded(delivery);
    }
}

/// Events behind a position come in the order of their positions.
pub proof fn events_behind_sorted(view: RelayView, room: RoomId, after: u64)
    requires
        in_order(view),
    ensures
        forall|i: int, j: int|
            0 <= i < j < events_behind(view.events, room, after).len() ==> (
            #[trigger] events_behind(view.events, room, after)[i]).sequence < (
            #[trigger] events_behind(view.events, room, after)[j]).sequence,
        forall|i: int|
            0 <= i < events_behind(view.events, room, after).len() ==> (
            #[trigger] events_behind(view.events, room, after)[i]).room == room && events_behind(
                view.events,
                room,
                after,
            )[i].sequence > after,
        forall|row: EventRowView|
            #![trigger events_behind(view.events, room, after).contains(row)]
            events_behind(view.events, room, after).contains(row) <==> view.events.contains(row)
                && row.room == room && row.sequence > after,
{
    let wanted = |row: EventRowView| row.room == room && row.sequence > after;
    filtered_sorted(view.events, wanted, room);
    filter_members(view.events, wanted);
    let behind = events_behind(view.events, room, after);
    assert forall|row: EventRowView| behind.contains(row) <==> view.events.contains(row) && row.room
        == room && row.sequence > after by {
        if view.events.contains(row) && wanted(row) {
            let k = choose|k: int| 0 <= k < view.events.len() && view.events[k] == row;
            assert(behind.contains(view.events[k]));
        }
    }
}

/// Filtering keeps an order.
proof fn filtered_sorted(
    events: Seq<EventRowView>,
    wanted: spec_fn(EventRowView) -> bool,
    room: RoomId,
)
    requires
        forall|row: EventRowView| #[trigger] wanted(row) ==> row.room == room,
        forall|i: int, j: int|
            0 <= i < j < events.len() && events[i].room == events[j].room ==> (
            #[trigger] events[i]).sequence < (#[trigger] events[j]).sequence,
    ensures
        forall|i: int, j: int|
            0 <= i < j < events.filter(wanted).len() ==> (
            #[trigger] events.filter(wanted)[i]).sequence < (
            #[trigger] events.filter(wanted)[j]).sequence,
    decreases events.len(),
{
    reveal(Seq::filter);
    if events.len() > 0 {
        let before = events.drop_last();
        filtered_sorted(before, wanted, room);
        filter_members(before, wanted);
        let kept = before.filter(wanted);
        if wanted(events.last()) {
            assert forall|i: int| 0 <= i < kept.len() implies (#[trigger] kept[i]).sequence
                < events.last().sequence by {
                assert(wanted(kept[i]));
                assert(before.contains(kept[i]));
                let k = choose|k: int| 0 <= k < before.len() && before[k] == kept[i];
                assert(events[k] == before[k]);
                assert(events[events.len() - 1] == events.last());
            }
        }
    }
}

/// What was appended is what is read: every event row of sound tables is read as
/// the event that was accepted, and fits a page.
pub proof fn read_gives_what_was_appended(view: RelayView, row: EventRowView)
    requires
        sound(view),
        view.events.contains(row),
    ensures
        decoded::<Event>(row.record) is Ok,
        holds_event(row, decoded::<Event>(row.record)->Ok_0),
        row.record.len() <= PAGE_BYTES,
{
    let k = choose|k: int| 0 <= k < view.events.len() && view.events[k] == row;
    assert(event_row_sound(view.events[k]));
    let event = choose|event: EventView| #[trigger] holds_event(row, event);
    operation_bounded(event);
}

/// A page of a room in sound tables never fails and makes progress: it holds at
/// least one event where there is one, all of them where nothing more is
/// announced, and the events themselves in their order.
pub proof fn room_page_progress(view: RelayView, user: UserId, room: RoomId, after: u64)
    requires
        sound(view),
        after <= MAX_NUMBER,
        view.subscribers.contains((room, user)),
    ensures
        room_page(view, user, room, after) matches Ok(
            (ResponseView::RoomEvents { events, more, .. }, _),
        )
            && {
            let behind = events_behind(view.events, room, after);
            &&& events.len() <= behind.len()
            &&& behind.len() > 0 ==> events.len() > 0
            &&& more == (events.len() < behind.len())
            &&& forall|i: int|
                0 <= i < events.len() ==> holds_event(behind[i], #[trigger] events[i])
        },
{
    rows_readable(view, room, after);
    readable_page(events_behind(view.events, room, after));
}

/// Whether the record of a row is read as the event that the row holds, and fits a
/// page.
#[verifier::opaque]
spec fn row_readable(row: EventRowView) -> bool {
    &&& decoded::<Event>(row.record) is Ok
    &&& holds_event(row, decoded::<Event>(row.record)->Ok_0)
    &&& row.record.len() <= PAGE_BYTES
}

/// A page holds at least one record, where there is one and it fits.
proof fn page_makes_progress(sizes: Seq<nat>)
    requires
        sizes.len() > 0 ==> sizes[0] <= PAGE_BYTES,
    ensures
        page_length(sizes, 0, 0) <= sizes.len(),
        sizes.len() > 0 ==> page_length(sizes, 0, 0) > 0,
{
    page_length_bounds(sizes, 0, 0);
}

#[verifier::rlimit(60)]
#[verifier::spinoff_prover]
proof fn rows_are_read(rows: Seq<EventRowView>)
    requires
        forall|i: int| 0 <= i < rows.len() ==> row_readable(#[trigger] rows[i]),
    ensures
        events_read(rows) matches Some(events) && events.len() == rows.len() && forall|i: int|
            0 <= i < events.len() ==> holds_event(rows[i], #[trigger] events[i]),
{
    assert forall|i: int| 0 <= i < rows.len() implies decoded::<Event>(
        (#[trigger] rows[i]).record,
    ) is Ok by {
        reveal(row_readable);
        assert(row_readable(rows[i]));
    }
    let events = events_read(rows)->Some_0;
    assert forall|i: int| 0 <= i < events.len() implies holds_event(rows[i], #[trigger] events[i]) by {
        reveal(row_readable);
        assert(row_readable(rows[i]));
    }
}

#[verifier::rlimit(60)]
#[verifier::spinoff_prover]
proof fn readable_page(behind: Seq<EventRowView>)
    requires
        forall|i: int| 0 <= i < behind.len() ==> row_readable(#[trigger] behind[i]),
    ensures
        ({
            let length = page_length(event_sizes(behind), 0, 0);
            &&& length <= behind.len()
            &&& behind.len() > 0 ==> length > 0
            &&& events_read(behind.take(length as int)) matches Some(events) && events.len()
                == length && forall|i: int|
                0 <= i < events.len() ==> holds_event(behind[i], #[trigger] events[i])
        }),
{
    let sizes = event_sizes(behind);
    let length = page_length(sizes, 0, 0);
    if behind.len() > 0 {
        assert(sizes[0] <= PAGE_BYTES) by {
            reveal(row_readable);
            assert(row_readable(behind[0]));
        }
    }
    page_makes_progress(sizes);
    let page = behind.take(length as int);
    assert forall|i: int| 0 <= i < page.len() implies row_readable(#[trigger] page[i]) by {
        assert(page[i] == behind[i]);
    }
    rows_are_read(page);
    let events = events_read(page)->Some_0;
    assert forall|i: int| 0 <= i < events.len() implies holds_event(behind[i], #[trigger] events[i]) by {
        assert(page[i] == behind[i]);
    }
}

proof fn rows_readable(view: RelayView, room: RoomId, after: u64)
    requires
        sound(view),
    ensures
        forall|i: int|
            0 <= i < events_behind(view.events, room, after).len() ==> row_readable(
                #[trigger] events_behind(view.events, room, after)[i],
            ),
{
    let behind = events_behind(view.events, room, after);
    events_behind_sorted(view, room, after);
    assert forall|i: int| 0 <= i < behind.len() implies row_readable(#[trigger] behind[i]) by {
        reveal(row_readable);
        assert(behind.contains(behind[i]));
        read_gives_what_was_appended(view, behind[i]);
    }
}

/// Reading on behind the last event of a page gives what the page left: nothing
/// is skipped and nothing comes twice.
pub proof fn next_room_page_continues(view: RelayView, room: RoomId, after: u64, count: int)
    requires
        in_order(view),
        0 < count <= events_behind(view.events, room, after).len(),
    ensures
        events_behind(
            view.events,
            room,
            events_behind(view.events, room, after)[count - 1].sequence,
        ) == events_behind(view.events, room, after).skip(count),
{
    events_behind_sorted(view, room, after);
    let behind = events_behind(view.events, room, after);
    let last = behind[count - 1].sequence;
    let first = |row: EventRowView| row.room == room && row.sequence > after;
    let second = |row: EventRowView| row.room == room && row.sequence > last;
    filter_of_filter(view.events, first, second);
    filter_suffix(behind, second, count);
}

/// A receipt leaves everything that is read as it is.
pub proof fn receipts_change_no_reads(
    view: RelayView,
    limits: StorageLimits,
    facts: StorageFacts,
    user: UserId,
    id: MessageId,
    request: RequestView,
    now: i64,
    fresh: Option<RoomId>,
)
    requires
        request is Acknowledge,
    ensures
        outcome(view, limits, facts, user, id, request, now, fresh) matches Ok(done)
            ==> all_applied(view, done.changes) == (RelayView {
            requests: all_applied(view, done.changes).requests,
            ..view
        }),
{
    if let Ok(done) = outcome(view, limits, facts, user, id, request, now, fresh) {
        if done.changes.len() > 0 {
            let changes = execution(view, user, id, request, now, fresh)->Ok_0.1;
            crate::relay::service::confirmed_changes_nothing(
                view,
                user,
                request->Acknowledge_welcomes,
            );
            assert(changes =~= Seq::<ChangeView>::empty());
            assert(done.changes.drop_last() =~= changes);
            assert(all_applied(view, changes) == view);
        }
        assert(all_applied(view, done.changes) =~= (RelayView {
            requests: all_applied(view, done.changes).requests,
            ..view
        }));
    }
}

/// Reads change nothing.
pub proof fn reads_change_nothing(
    view: RelayView,
    limits: StorageLimits,
    facts: StorageFacts,
    user: UserId,
    id: MessageId,
    request: RequestView,
    now: i64,
    fresh: Option<RoomId>,
)
    requires
        reads_only(request),
    ensures
        outcome(view, limits, facts, user, id, request, now, fresh) matches Ok(done)
            ==> done.changes.len() == 0,
{
}

/// Reads and receipts do not depend on the storage limits: recovery works when
/// nothing more can be stored.
pub proof fn recovery_ignores_quota(
    view: RelayView,
    limits: StorageLimits,
    facts: StorageFacts,
    limits2: StorageLimits,
    facts2: StorageFacts,
    user: UserId,
    id: MessageId,
    request: RequestView,
    now: i64,
    fresh: Option<RoomId>,
)
    requires
        reads_only(request) || request is Acknowledge || view.requests.contains_key((user, id)),
    ensures
        outcome(view, limits, facts, user, id, request, now, fresh) == outcome(
            view,
            limits2,
            facts2,
            user,
            id,
            request,
            now,
            fresh,
        ),
{
}

/// Whoever is charged stays within their limit, and so does the room that is
/// extended.
pub proof fn charges_stay_within_limits(
    view: RelayView,
    limits: StorageLimits,
    facts: StorageFacts,
    user: UserId,
    id: MessageId,
    request: RequestView,
    now: i64,
    fresh: Option<RoomId>,
)
    requires
        outcome(view, limits, facts, user, id, request, now, fresh) matches Ok(done)
            && keeps_answer(done),
        request !is Acknowledge,
    ensures
        charged(
            all_applied(
                view,
                outcome(view, limits, facts, user, id, request, now, fresh)->Ok_0.changes,
            ).sender_usage,
            user,
        ) == charged(view.sender_usage, user) + charge(Request::encoded(request).len()),
        charged(view.sender_usage, user) + charge(Request::encoded(request).len())
            <= limits.sender,
        request matches RequestView::AppendRoomOperation(operation) ==> charged(
            all_applied(
                view,
                outcome(view, limits, facts, user, id, request, now, fresh)->Ok_0.changes,
            ).room_usage,
            operation.room,
        ) == charged(view.room_usage, operation.room) + charge(Request::encoded(request).len())
            && charged(view.room_usage, operation.room) + charge(Request::encoded(request).len())
            <= limits.room,
{
    kept_outcome(view, limits, facts, user, id, request, now, fresh);
    let changes = execution(view, user, id, request, now, fresh)->Ok_0.1;
    execution_admitted(view, user, id, request, now, fresh);
    charged_once(
        view,
        changes,
        user,
        id,
        request,
        execution(view, user, id, request, now, fresh)->Ok_0.0,
    );
}

proof fn charged_once(
    view: RelayView,
    changes: Seq<ChangeView>,
    user: UserId,
    id: MessageId,
    request: RequestView,
    response: ResponseView,
)
    requires
        forall|i: int| 0 <= i < changes.len() ==> !journals(#[trigger] changes[i]),
        request !is Acknowledge,
        charged(view.sender_usage, user) + charge(Request::encoded(request).len()) <= u64::MAX,
    ensures
        charged(
            all_applied(
                view,
                with_charges(changes, user, request).push(
                    ChangeView::Request {
                        user,
                        id,
                        hash: request_hash(request),
                        response: Response::encoded(response),
                    },
                ),
            ).sender_usage,
            user,
        ) == charged(view.sender_usage, user) + charge(Request::encoded(request).len()),
        request matches RequestView::AppendRoomOperation(operation) ==> charged(
            view.room_usage,
            operation.room,
        ) + charge(Request::encoded(request).len()) <= u64::MAX ==> charged(
            all_applied(
                view,
                with_charges(changes, user, request).push(
                    ChangeView::Request {
                        user,
                        id,
                        hash: request_hash(request),
                        response: Response::encoded(response),
                    },
                ),
            ).room_usage,
            operation.room,
        ) == charged(view.room_usage, operation.room) + charge(Request::encoded(request).len()),
{
    let done = with_charges(changes, user, request).push(
        ChangeView::Request {
            user,
            id,
            hash: request_hash(request),
            response: Response::encoded(response),
        },
    );
    journal_untouched(view, changes);
    let bytes = charge(Request::encoded(request).len()) as u64;
    let sender = changes.push(ChangeView::SenderUsage { user, bytes });
    let charges = with_charges(changes, user, request);
    assert(sender.drop_last() =~= changes);
    let paid = all_applied(view, sender);
    assert(paid == applied(all_applied(view, changes), sender.last()));
    assert(charged(paid.sender_usage, user) == charged(view.sender_usage, user) + bytes);
    if request is AppendRoomOperation {
        assert(charges.drop_last() =~= sender);
        assert(all_applied(view, charges) == applied(paid, charges.last()));
    } else {
        assert(charges == sender);
    }
    assert(all_applied(view, charges).sender_usage == paid.sender_usage);
    assert(paid.room_usage == view.room_usage);
    assert(done.drop_last() =~= charges);
    assert(all_applied(view, done) == applied(all_applied(view, charges), done.last()));
}

/// A package is handed out only under a grant, and no more than the limits allow
/// within an hour; it leaves the pool.
pub proof fn reservations_are_limited(
    view: RelayView,
    user: UserId,
    recipient: UserId,
    now: i64,
)
    requires
        reservation(view, user, recipient, now) matches Ok((response, _)) && response is KeyPackage,
    ensures
        view.grants.contains((recipient, user)),
        recent_allocations(
            all_applied(view, reservation(view, user, recipient, now)->Ok_0.1).allocations,
            recipient,
            now,
        ) <= MAX_ALLOCATIONS_PER_RECIPIENT,
        recent_pair_allocations(
            all_applied(view, reservation(view, user, recipient, now)->Ok_0.1).allocations,
            recipient,
            user,
            now,
        ) <= MAX_ALLOCATIONS_PER_PAIR,
        all_applied(view, reservation(view, user, recipient, now)->Ok_0.1).packages
            == view.packages.remove(first_package(view.packages, recipient) as int),
{
    let changes = reservation(view, user, recipient, now)->Ok_0.1;
    let none = Seq::<ChangeView>::empty();
    assert(changes.drop_last() =~= seq![changes[0]]);
    assert(seq![changes[0]].drop_last() =~= none);
    assert(all_applied(view, none) == view);
    assert(all_applied(view, seq![changes[0]]) == applied(view, changes[0]));
    let after = all_applied(view, changes);
    assert(after.allocations.drop_last() =~= view.allocations);
}

} // verus!
