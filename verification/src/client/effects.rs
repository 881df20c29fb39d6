//! What an answer does to what the client stores.
use vstd::prelude::*;
use crate::client::complete::{
    completes, completion, Completion, CompletionView, GroupStep, Note,
};
use crate::client::drive::{drives, DriveAction, DriveState, DriveStep};
use crate::client::groups::PackageFault;
use crate::client::journal::{plans, EngineError, Refusal};
use crate::client::laws::{
    applied_nothing, applied_one, applied_three, applied_two, client_in_order,
    history_index_is_first, outbox_index_is_first,
};
use crate::client::reception::{receivable, receivable_is_received};
use crate::client::store::DatabaseSize;
use crate::client::sync::{steps, SyncAction, SyncState, SyncStep};
use crate::client::tables::{
    client_all_applied, history_index, outbox_index, removed_at, Arrival, ClientChange,
    ClientChangeView, ClientView, HistoryRowView, InboxRowView, IntentRowView, OutboxRowView,
    RoomEntryView,
};
use crate::delivery::{Event, EventView, MlsContentType};
use crate::ids::{MessageId, RoomId, UserId};
use crate::protocol::normalized_name;
use crate::requests::{Rejection, RequestView, ResponseView};
use crate::wire::Wire;

verus! {

/// An answer as it comes to the client: to which request, with what the client learns
/// from its system and of the package that the answer may hold.
pub struct Reply {
    pub budget: u64,
    pub user: UserId,
    pub id: MessageId,
    pub request: RequestView,
    pub response: ResponseView,
    pub size: DatabaseSize,
    pub check: Result<(), PackageFault>,
}

/// What an answer comes to.
pub open spec fn completed(view: ClientView, r: Reply) -> Result<CompletionView, EngineError> {
    completion(view, r.budget, r.user, r.id, r.request, r.response, r.size, r.check)
}

/// The client afterwards, once what the answer leads to is written.
pub open spec fn after_answer(view: ClientView, r: Reply) -> ClientView {
    match completed(view, r) {
        Ok(done) => client_all_applied(view, done.changes),
        Err(_) => view,
    }
}

/// A journal without a request.
pub open spec fn journal_without(outbox: Seq<OutboxRowView>, id: MessageId) -> Seq<OutboxRowView> {
    outbox.filter(|row: OutboxRowView| row.request_id != id)
}

/// A history without a message.
pub open spec fn history_without(history: Seq<HistoryRowView>, id: MessageId) -> Seq<
    HistoryRowView,
> {
    history.filter(|row: HistoryRowView| row.message_id != id)
}

proof fn one_left_out<A>(rows: Seq<A>, wanted: spec_fn(A) -> bool, at: int)
    requires
        0 <= at <= rows.len(),
        forall|i: int| 0 <= i < rows.len() && i != at ==> wanted(#[trigger] rows[i]),
        at < rows.len() ==> !wanted(rows[at]),
    ensures
        rows.filter(wanted) == removed_at(rows, at as nat),
    decreases rows.len(),
{
    reveal(Seq::filter);
    if rows.len() > 0 {
        let fewer = rows.drop_last();
        let last = rows.last();
        assert(rows[rows.len() - 1] == last);
        assert forall|i: int| 0 <= i < fewer.len() && i != at implies wanted(
            #[trigger] fewer[i],
        ) by {
            assert(fewer[i] == rows[i]);
        }
        if at < rows.len() - 1 {
            assert(fewer[at] == rows[at]);
            one_left_out(fewer, wanted, at);
            assert(rows.remove(at) =~= fewer.remove(at).push(last));
        } else {
            one_left_out(fewer, wanted, fewer.len() as int);
            if at == rows.len() - 1 {
                assert(rows.remove(at) =~= fewer);
            } else {
                assert(wanted(rows[rows.len() - 1]));
                assert(rows =~= fewer.push(last));
            }
        }
    }
}

pub(crate) proof fn removal_leaves_the_others(view: ClientView, id: MessageId)
    requires
        client_in_order(view),
    ensures
        removed_at(view.outbox, outbox_index(view.outbox, id)) == journal_without(view.outbox, id),
        removed_at(view.history, history_index(view.history, id)) == history_without(
            view.history,
            id,
        ),
{
    outbox_index_is_first(view.outbox, id);
    history_index_is_first(view.history, id);
    one_left_out(
        view.outbox,
        |row: OutboxRowView| row.request_id != id,
        outbox_index(view.outbox, id) as int,
    );
    one_left_out(
        view.history,
        |row: HistoryRowView| row.message_id != id,
        history_index(view.history, id) as int,
    );
}

/// The answer that a room was created, to the request to create it under a name: the room
/// stands among the client's rooms under the name as it is kept, as one that the client
/// created unless it was known before; it has its position, which is zero for a new
/// room; the request has left the journal; and no other room, request or position
/// changed, nor anything else.
pub proof fn created_room_is_kept(view: ClientView, r: Reply, name: Seq<char>, room: RoomId)
    requires
        client_in_order(view),
        r.request == (RequestView::CreateRoom { name }),
        r.response == (ResponseView::RoomCreated { room }),
    ensures
        completed(view, r) is Ok <==> normalized_name(name) is Ok,
        completed(view, r) matches Ok(done) ==> {
            &&& done.step == GroupStep::Create(room)
            &&& done.note == Note::RoomCreated { room }
            &&& after_answer(view, r) == (ClientView {
                rooms: view.rooms.insert(
                    room,
                    RoomEntryView {
                        name: normalized_name(name)->Ok_0,
                        origin: if view.rooms.contains_key(room) {
                            view.rooms[room].origin
                        } else {
                            "created"@
                        },
                    },
                ),
                cursors: if view.cursors.contains_key(room) {
                    view.cursors
                } else {
                    view.cursors.insert(room, 0)
                },
                outbox: journal_without(view.outbox, r.id),
                ..view
            })
        },
{
    if let Ok(done) = completed(view, r) {
        let first = ClientChangeView::Room {
            room,
            name: normalized_name(name)->Ok_0,
            origin: "created"@,
        };
        let cursor = ClientChangeView::Cursor { room, sequence: 0 };
        let last = ClientChangeView::OutboxRemoved { request_id: r.id };
        removal_leaves_the_others(view, r.id);
        if view.cursors.contains_key(room) {
            assert(done.changes =~= seq![first, last]);
            applied_two(view, first, last);
        } else {
            assert(done.changes =~= seq![first, cursor, last]);
            applied_three(view, first, cursor, last);
        }
    }
}

/// Whether an answer says only that a request was carried out.
pub open spec fn carried_out(request: RequestView, response: ResponseView) -> bool {
    match request {
        RequestView::PublishKeyPackages { packages } => response
            == ResponseView::KeyPackagesPublished { count: packages.len() as u64 }
            && packages.len() <= u64::MAX,
        RequestView::SetFetchGrant { .. } => response == ResponseView::FetchGrantSet,
        RequestView::Acknowledge { .. } => response == ResponseView::Acknowledged,
        _ => false,
    }
}

/// The answer that packages were published, that a grant was set or that a receipt was
/// taken, to the request for it, takes the request out of the journal and does nothing
/// else.
pub proof fn carried_out_request_leaves(view: ClientView, r: Reply)
    requires
        client_in_order(view),
        carried_out(r.request, r.response),
    ensures
        completed(view, r) matches Ok(done) && done.step == GroupStep::Nothing && (match r.response {
            ResponseView::KeyPackagesPublished { count } => done.note == Note::Published { count },
            ResponseView::FetchGrantSet => done.note == Note::GrantSet,
            _ => done.note == Note::Acknowledged,
        }),
        after_answer(view, r) == (ClientView { outbox: journal_without(view.outbox, r.id), ..view }),
{
    removal_leaves_the_others(view, r.id);
    applied_one(view, ClientChangeView::OutboxRemoved { request_id: r.id });
}

/// Whether the commit of a request is under way in its room.
pub open spec fn commit_under_way(request: RequestView) -> GroupStep {
    match request {
        RequestView::AppendRoomOperation(operation) => match operation.content_type {
            MlsContentType::Commit => GroupStep::Discard(operation.room),
            _ => GroupStep::Nothing,
        },
        _ => GroupStep::Nothing,
    }
}

/// A refusal that may pass leaves everything as it is. Any other refusal takes the request
/// out of the journal and takes away the wishes that it was an attempt at, and no
/// others.
pub proof fn refused_request_leaves(view: ClientView, r: Reply, reason: Rejection)
    requires
        client_in_order(view),
        r.response == ResponseView::Rejected(reason),
    ensures
        ({
            let passes = reason == Rejection::Overloaded || reason == Rejection::Quota || reason
                == Rejection::Internal;
            let after = after_answer(view, r);
            &&& completed(view, r) matches Ok(done) && (if passes {
                done.step == GroupStep::Nothing && done.note == Note::Retained
            } else {
                done.step == commit_under_way(r.request) && done.note == Note::Rejected { reason }
            })
            &&& if passes {
                after == view
            } else {
                &&& after == (ClientView {
                    outbox: journal_without(view.outbox, r.id),
                    intents: after.intents,
                    ..view
                })
                &&& forall|room: RoomId| #[trigger]
                    after.intents.contains_key(room) <==> view.intents.contains_key(room)
                        && view.intents[room].attempt != Some(r.id)
                &&& forall|room: RoomId| #[trigger]
                    after.intents.contains_key(room) ==> after.intents[room] == view.intents[room]
            }
        }),
{
    removal_leaves_the_others(view, r.id);
    applied_nothing(view);
    applied_two(
        view,
        ClientChangeView::IntentsRemoved { attempt: r.id },
        ClientChangeView::OutboxRemoved { request_id: r.id },
    );
}

/// The answer that another operation came first, to the request to append to that room,
/// takes the request out of the journal and its message out of the history; the wishes
/// that it was an attempt at stand again without one, and nothing else changes. An
/// answer for another room, or with the very parent as the newest position, is refused.
pub proof fn conflict_frees_the_wish(
    view: ClientView,
    r: Reply,
    operation: crate::delivery::AppendView,
    room: RoomId,
    head: u64,
)
    requires
        client_in_order(view),
        r.request == RequestView::AppendRoomOperation(operation),
        r.response == (ResponseView::HeadConflict { room, head }),
    ensures
        completed(view, r) is Ok <==> room == operation.room && head != operation.parent,
        completed(view, r) matches Ok(done) ==> {
            let after = after_answer(view, r);
            &&& done.step == commit_under_way(r.request)
            &&& done.note == Note::Conflict { room }
            &&& after == (ClientView {
                outbox: journal_without(view.outbox, r.id),
                history: history_without(view.history, r.id),
                intents: after.intents,
                ..view
            })
            &&& forall|other: RoomId| #[trigger]
                after.intents.contains_key(other) <==> view.intents.contains_key(other)
            &&& forall|other: RoomId| #[trigger]
                after.intents.contains_key(other) ==> after.intents[other] == (IntentRowView {
                    attempt: if view.intents[other].attempt == Some(r.id) {
                        None
                    } else {
                        view.intents[other].attempt
                    },
                    ..view.intents[other]
                })
        },
{
    removal_leaves_the_others(view, r.id);
    applied_three(
        view,
        ClientChangeView::OutboxRemoved { request_id: r.id },
        ClientChangeView::HistoryRemoved { message_id: r.id },
        ClientChangeView::IntentsReleased { attempt: r.id },
    );
}

/// The answer with a package, to the request for one of that recipient: where the package
/// is sound and one room alone wants that recipient by this very attempt, the package
/// stands with that room's wish, whose attempt is over, the request has left the
/// journal, and nothing else changed.
pub proof fn package_waits_with_its_wish(
    view: ClientView,
    r: Reply,
    recipient: UserId,
    package: Seq<u8>,
    room: RoomId,
)
    requires
        client_in_order(view),
        r.request == (RequestView::ReserveKeyPackage { recipient }),
        r.response == (ResponseView::KeyPackage { recipient, package }),
        r.check is Ok,
        view.intents.contains_key(room),
        view.intents[room].attempt == Some(r.id),
        view.intents[room].target == Some(recipient),
        forall|other: RoomId| #[trigger]
            view.intents.contains_key(other) && other != room ==> !(view.intents[other].attempt
                == Some(r.id) && view.intents[other].target == Some(recipient)),
    ensures
        completed(view, r) matches Ok(done) && done.step == GroupStep::Nothing && done.note
            == Note::Reserved,
        after_answer(view, r) == (ClientView {
            intents: view.intents.insert(
                room,
                IntentRowView { package: Some(package), attempt: None, ..view.intents[room] },
            ),
            outbox: journal_without(view.outbox, r.id),
            ..view
        }),
{
    removal_leaves_the_others(view, r.id);
    let found = crate::client::complete::reserving_room(view.intents, r.id, recipient);
    assert(crate::client::complete::reserving(view.intents, r.id, recipient, room));
    assert(found == Some(room));
    applied_two(
        view,
        ClientChangeView::IntentPackage { room, package },
        ClientChangeView::OutboxRemoved { request_id: r.id },
    );
}

/// Whether an answer is one to a request.
pub open spec fn answers(r: Reply) -> bool {
    match r.response {
        ResponseView::Rejected(_) => true,
        ResponseView::RoomCreated { .. } => r.request is CreateRoom,
        ResponseView::KeyPackage { recipient, .. } => r.request
            == RequestView::ReserveKeyPackage { recipient },
        ResponseView::AppendAccepted { event } => r.request == RequestView::AppendRoomOperation(
            event.operation,
        ) && event.id == r.id && event.sender == r.user,
        ResponseView::HeadConflict { room, head } => {
            r.request matches RequestView::AppendRoomOperation(operation) && operation.room == room
                && operation.parent != head
        },
        _ => carried_out(r.request, r.response),
    }
}

/// An answer that is none to the request is refused, and nothing is written.
pub proof fn strange_answer_is_refused(view: ClientView, r: Reply)
    requires
        !answers(r),
    ensures
        completed(view, r) == Err::<CompletionView, EngineError>(
            EngineError::Refused(Refusal::ResponseDiffers),
        ),
        after_answer(view, r) == view,
{
}

/// The answer that an operation was accepted, to the request to append it: the event
/// stands in the inbox at the position after its parent, as it came and received only,
/// unless it stood there already; the request stays in the journal until the event is
/// applied; and nothing else changes.
pub proof fn accepted_event_is_received(view: ClientView, r: Reply, event: EventView)
    requires
        r.response == (ResponseView::AppendAccepted { event }),
        answers(r),
        completed(view, r) is Ok,
    ensures
        completed(view, r)->Ok_0.step == GroupStep::Nothing,
        completed(view, r)->Ok_0.note == Note::Received,
        event.operation.parent + 1 <= 0x7fff_ffff_ffff_ffff,
        after_answer(view, r) == (if view.inbox.contains_key(event.id) {
            view
        } else {
            ClientView {
                inbox: view.inbox.insert(
                    event.id,
                    InboxRowView {
                        room: event.operation.room,
                        sequence: (event.operation.parent + 1) as u64,
                        record: Event::encoded(event),
                        state: Arrival::Received,
                    },
                ),
                ..view
            }
        }),
        view.inbox.contains_key(event.id) ==> view.inbox[event.id].record == Event::encoded(event),
{
    applied_nothing(view);
    applied_one(
        view,
        ClientChangeView::Inbox {
            id: event.id,
            room: event.operation.room,
            sequence: (event.operation.parent + 1) as u64,
            record: Event::encoded(event),
        },
    );
}

/// An event that was accepted is received exactly where the client can receive it.
pub proof fn accepted_event_is_owed(view: ClientView, r: Reply, event: EventView)
    requires
        r.budget < u64::MAX,
        r.response == (ResponseView::AppendAccepted { event }),
        answers(r),
    ensures
        completed(view, r) is Ok <==> receivable(view, r.budget, event, r.size),
{
    receivable_is_received(view, r.budget, event, r.size);
}

/// A package that is not sound is refused, and so is one that no room wants by this very
/// attempt.
pub proof fn unfit_package_is_refused(
    view: ClientView,
    r: Reply,
    recipient: UserId,
    package: Seq<u8>,
)
    requires
        r.request == (RequestView::ReserveKeyPackage { recipient }),
        r.response == (ResponseView::KeyPackage { recipient, package }),
        r.check is Err || !exists|room: RoomId| #[trigger]
            view.intents.contains_key(room) && view.intents[room].attempt == Some(r.id)
                && view.intents[room].target == Some(recipient),
    ensures
        completed(view, r) is Err,
        after_answer(view, r) == view,
{
}

/// What is worked out is what was meant: the completion of an answer, a plan of changes, and
/// the turns of sending and of catching up, each with the very error where there is one.
pub proof fn worked_out_as_meant(
    completion: (Result<Completion, EngineError>, Result<CompletionView, EngineError>),
    plan: (Result<Vec<ClientChange>, EngineError>, Result<Seq<ClientChangeView>, EngineError>),
    drive: (Result<(DriveState, DriveAction), EngineError>, DriveStep),
    sync: (Result<(SyncState, SyncAction), EngineError>, SyncStep),
)
    requires
        completes(completion.0, completion.1),
        plans(plan.0, plan.1),
        drives(drive.0, drive.1),
        steps(sync.0, sync.1),
    ensures
        match completion.0 {
            Ok(done) => completion.1 == Ok::<CompletionView, EngineError>(done.deep_view()),
            Err(error) => completion.1 == Err::<CompletionView, EngineError>(error),
        },
        match plan.0 {
            Ok(changes) => plan.1 == Ok::<Seq<ClientChangeView>, EngineError>(changes.deep_view()),
            Err(error) => plan.1 == Err::<Seq<ClientChangeView>, EngineError>(error),
        },
        match drive.0 {
            Ok((state, action)) => drive.1 == DriveStep::Ok(
                (state.deep_view(), action.deep_view()),
            ),
            Err(error) => drive.1 == DriveStep::Err(error),
        },
        match sync.0 {
            Ok((state, action)) => sync.1 == SyncStep::Ok((state.deep_view(), action.deep_view())),
            Err(error) => sync.1 == SyncStep::Err(error),
        },
{
}

} // verus!
