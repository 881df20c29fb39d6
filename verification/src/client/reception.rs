//! What comes of the events and the welcomes that reach a client.
use vstd::prelude::*;
use crate::client::catchup::{waiting_is_indexed, waits};
use crate::client::complete::GroupStep;
use crate::client::contacts::required_contact;
use crate::client::effects::{journal_without, removal_leaves_the_others};
use crate::client::errors::StoreError;
use crate::client::events::{
    event_applied, event_plan, event_refused, own_attempt, own_settling, EventPlanView,
};
use crate::client::groups::{ProcessedView, ProcessingFault};
use crate::client::journal::{event_finishing, journaled, journaling, receiving, EngineError, Refusal};
use crate::client::laws::{
    applied_in_parts, applied_nothing, applied_one, applied_three, applied_two, client_in_order,
    history_index_is_first, last_rowid_bounds, outbox_index_is_first,
};
use crate::client::store::{within_budget, DatabaseSize};
use crate::client::tables::{
    client_all_applied, client_applied, history_index, last_rowid, outbox_has, outbox_index,
    Arrival, ClientChangeView, ClientView, HistoryRowView, InboxRowView, OutboxRowView,
    RoomEntryView, WelcomeInboxRowView,
};
use crate::client::welcomes::{welcome_joining, welcome_verified};
use crate::crypto::signature_valid;
use crate::delivery::{Event, EventView, MlsContentType, WelcomeDeliveryView};
use crate::ids::{MessageId, RoomId, UserId};
use crate::messages::{ClientMessage, ClientMessageView};
use crate::protocol::{decoded, normalized_name};
use crate::requests::{Request, RequestView};
use crate::transcripts::{receipt_id, welcome_data};
use crate::wire::Wire;

verus! {

/// Whether a journal holds a request: once more at its end, under its identifier, of the
/// kind `Delivery`, with the message that sends it, or as it stood there already; with
/// every other request as it was.
pub open spec fn noted(
    before: Seq<OutboxRowView>,
    after: Seq<OutboxRowView>,
    id: MessageId,
    request: RequestView,
) -> bool {
    let message = ClientMessage::encoded(ClientMessageView::Delivery { request_id: id, request });
    if waits(before, id) {
        &&& after == before
        &&& exists|i: int|
            0 <= i < before.len() && (#[trigger] before[i]).request_id == id && before[i].kind
                == "Delivery"@ && before[i].message == message
    } else {
        &&& after.len() == before.len() + 1
        &&& after.drop_last() == before
        &&& after.last().request_id == id
        &&& after.last().kind == "Delivery"@
        &&& after.last().message == message
        &&& forall|i: int|
            0 <= i < before.len() ==> (#[trigger] before[i]).rowid < after.last().rowid
    }
}

pub(crate) proof fn journaled_is_noted(view: ClientView, id: MessageId, request: RequestView)
    requires
        journaled(view.outbox, id, request) is Ok,
    ensures
        ({
            let after = client_all_applied(view, journaled(view.outbox, id, request)->Ok_0);
            &&& after == (ClientView { outbox: after.outbox, ..view })
            &&& noted(view.outbox, after.outbox, id, request)
        }),
{
    let changes = journaled(view.outbox, id, request)->Ok_0;
    let after = client_all_applied(view, changes);
    waiting_is_indexed(view.outbox, id);
    outbox_index_is_first(view.outbox, id);
    last_rowid_bounds(view.outbox);
    applied_nothing(view);
    if !waits(view.outbox, id) {
        applied_one(view, changes[0]);
        assert(changes =~= seq![changes[0]]);
        assert(after.outbox.drop_last() =~= view.outbox);
    }
}

/// What the budget for new data leaves: three times the bytes and 64 kibibytes on top of
/// what the database holds stay within it.
pub proof fn budget_is_kept(size: DatabaseSize, bytes: nat, budget: u64)
    requires
        budget < u64::MAX,
    ensures
        within_budget(size, bytes, budget) <==> size.page_count * size.page_size + 3 * bytes + 65536
            <= budget,
{
    assert(size.page_count * size.page_size >= 0) by (nonlinear_arith);
}

/// Journaling a request notes it and does nothing else. Within the budget, where the
/// message fits and its identifier is new, it is owed; a receipt needs no budget.
pub proof fn journaling_notes(
    view: ClientView,
    budget: u64,
    id: MessageId,
    request: RequestView,
    size: DatabaseSize,
)
    requires
        client_in_order(view),
        budget < u64::MAX,
    ensures
        ({
            let bytes = Request::encoded(request).len();
            let fits = ClientMessage::encoded(
                ClientMessageView::Delivery { request_id: id, request },
            ).len() <= 786432;
            let room = request is Acknowledge || (bytes <= 786432 && size.page_count
                * size.page_size + 3 * bytes + 65536 <= budget);
            &&& journaling(view.outbox, budget, id, request, size) matches Ok(changes) ==> {
                let after = client_all_applied(view, changes);
                &&& room
                &&& fits
                &&& after == (ClientView { outbox: after.outbox, ..view })
                &&& noted(view.outbox, after.outbox, id, request)
            }
            &&& room && fits && !waits(view.outbox, id) && (view.outbox.len() > 0
                ==> view.outbox.last().rowid < i64::MAX) ==> journaling(
                view.outbox,
                budget,
                id,
                request,
                size,
            ) is Ok
        }),
{
    budget_is_kept(size, Request::encoded(request).len(), budget);
    waiting_is_indexed(view.outbox, id);
    newest_is_last(view.outbox);
    if journaling(view.outbox, budget, id, request, size) is Ok {
        journaled_is_noted(view, id, request);
    }
}

pub(crate) proof fn newest_is_last(outbox: Seq<OutboxRowView>)
    requires
        forall|i: int, j: int|
            0 <= i < j < outbox.len() ==> (#[trigger] outbox[i]).rowid < (
            #[trigger] outbox[j]).rowid,
        forall|i: int| 0 <= i < outbox.len() ==> (#[trigger] outbox[i]).rowid > 0,
    ensures
        last_rowid(outbox) == if outbox.len() == 0 {
            0
        } else {
            outbox.last().rowid
        },
{
    last_rowid_bounds(outbox);
    newest_taken(outbox);
    if outbox.len() > 0 {
        assert(outbox[outbox.len() - 1].rowid <= last_rowid(outbox));
    }
}

pub(crate) proof fn newest_taken(outbox: Seq<OutboxRowView>)
    ensures
        last_rowid(outbox) == 0 || exists|i: int|
            0 <= i < outbox.len() && (#[trigger] outbox[i]).rowid == last_rowid(outbox),
    decreases outbox.len(),
{
    if outbox.len() > 0 {
        let fewer = outbox.drop_last();
        newest_taken(fewer);
        if last_rowid(fewer) != 0 {
            let i = choose|i: int|
                0 <= i < fewer.len() && (#[trigger] fewer[i]).rowid == last_rowid(fewer);
            assert(outbox[i] == fewer[i]);
        }
        assert(outbox[outbox.len() - 1] == outbox.last());
    }
}

/// An event that reaches a client. It is refused where the position after its parent is
/// no number that can be stored; as a contradiction where its identifier, or its position
/// in its room, stands in the inbox with something else. One that stands there already
/// changes nothing. Any other that fits and for which the budget has room stands in the
/// inbox from then on, as it came, received only, and nothing else changes.
pub proof fn receiving_an_event(view: ClientView, budget: u64, event: EventView, size: DatabaseSize)
    requires
        budget < u64::MAX,
        Event::encoded(event).len() <= 786432,
    ensures
        ({
            let position = event.operation.parent + 1;
            let known = view.inbox.contains_key(event.id);
            let same = view.inbox[event.id].record == Event::encoded(event);
            let taken = exists|id: MessageId|
                #![trigger view.inbox.contains_key(id)]
                view.inbox.contains_key(id) && view.inbox[id].room == event.operation.room
                    && view.inbox[id].sequence == position;
            let room = size.page_count * size.page_size + 3 * Event::encoded(event).len() + 65536
                <= budget;
            match receiving(view, budget, event, size) {
                Ok(changes) => {
                    &&& position <= 0x7fff_ffff_ffff_ffff
                    &&& known ==> same && client_all_applied(view, changes) == view
                    &&& !known ==> !taken && room && client_all_applied(view, changes) == (
                    ClientView {
                        inbox: view.inbox.insert(
                            event.id,
                            InboxRowView {
                                room: event.operation.room,
                                sequence: position as u64,
                                record: Event::encoded(event),
                                state: Arrival::Received,
                            },
                        ),
                        ..view
                    })
                },
                Err(EngineError::Refused(Refusal::EventSequence)) => position
                    > 0x7fff_ffff_ffff_ffff,
                Err(EngineError::Refused(Refusal::Equivocation)) => (known && !same) || (!known
                    && taken),
                Err(EngineError::Store(StoreError::Quota)) => !known && !taken && !room,
                Err(_) => false,
            }
        }),
{
    budget_is_kept(size, Event::encoded(event).len(), budget);
    applied_nothing(view);
    if event.operation.parent < u64::MAX {
        applied_one(
            view,
            ClientChangeView::Inbox {
                id: event.id,
                room: event.operation.room,
                sequence: (event.operation.parent + 1) as u64,
                record: Event::encoded(event),
            },
        );
    }
}

/// Whether a client can receive an event: it fits, its position can be stored, it stands
/// in the inbox already, or neither its identifier nor its position does and the budget
/// has room for it.
pub open spec fn receivable(
    view: ClientView,
    budget: u64,
    event: EventView,
    size: DatabaseSize,
) -> bool {
    &&& Event::encoded(event).len() <= 786432
    &&& event.operation.parent + 1 <= 0x7fff_ffff_ffff_ffff
    &&& if view.inbox.contains_key(event.id) {
        view.inbox[event.id].record == Event::encoded(event)
    } else {
        &&& !exists|id: MessageId| #[trigger]
            view.inbox.contains_key(id) && view.inbox[id].room == event.operation.room
                && view.inbox[id].sequence == event.operation.parent + 1
        &&& size.page_count * size.page_size + 3 * Event::encoded(event).len() + 65536 <= budget
    }
}

/// An event is received exactly where it can be.
pub proof fn receivable_is_received(
    view: ClientView,
    budget: u64,
    event: EventView,
    size: DatabaseSize,
)
    requires
        budget < u64::MAX,
    ensures
        receiving(view, budget, event, size) is Ok <==> receivable(view, budget, event, size),
{
    if Event::encoded(event).len() <= 786432 {
        receiving_an_event(view, budget, event, size);
    }
}

/// Whether a client can note a request: its identifier is new, its message fits, and
/// there is a number for it.
pub open spec fn can_note(view: ClientView, id: MessageId, request: RequestView) -> bool {
    &&& !waits(view.outbox, id)
    &&& ClientMessage::encoded(ClientMessageView::Delivery { request_id: id, request }).len()
        <= 786432
    &&& view.outbox.len() > 0 ==> view.outbox.last().rowid < i64::MAX
}

pub(crate) proof fn noting_is_owed(view: ClientView, id: MessageId, request: RequestView)
    requires
        client_in_order(view),
        can_note(view, id, request),
    ensures
        journaled(view.outbox, id, request) is Ok,
{
    waiting_is_indexed(view.outbox, id);
    newest_is_last(view.outbox);
}

/// An event that the group took or rejected is over wherever its receipt can be noted and
/// its position can be stored; a message needs an author of 16 bytes. One that is
/// blocked is marked in any case.
pub proof fn end_of_an_event_is_owed(
    view: ClientView,
    user: UserId,
    event: EventView,
    processed: ProcessedView,
)
    requires
        client_in_order(view),
        event.operation.parent + 1 <= 0x7fff_ffff_ffff_ffff,
        can_note(
            view,
            receipt_id(user, seq![event.id], Seq::empty()),
            RequestView::Acknowledge { events: seq![event.id], welcomes: Seq::empty() },
        ),
        processed matches ProcessedView::Application { author, .. } ==> author.len() == 16,
    ensures
        event_applied(view, user, event, processed) is Ok,
        event_refused(view, user, event, ProcessingFault::Rejected) is Ok,
        event_refused(view, user, event, ProcessingFault::Blocked) is Ok,
{
    noting_is_owed(
        view,
        receipt_id(user, seq![event.id], Seq::empty()),
        RequestView::Acknowledge { events: seq![event.id], welcomes: Seq::empty() },
    );
}

/// A welcome to a room in which the client does not stand and whose group it does not have
/// is joined by wherever its receipt can be noted, its position can be stored and the
/// room has a name.
pub proof fn joining_is_owed(
    view: ClientView,
    user: UserId,
    cursor: u64,
    welcome: WelcomeDeliveryView,
)
    requires
        client_in_order(view),
        !view.cursors.contains_key(welcome.room),
        welcome.sequence <= 0x7fff_ffff_ffff_ffff,
        normalized_name(welcome.room_name) is Ok,
        can_note(
            view,
            receipt_id(user, Seq::empty(), seq![cursor]),
            RequestView::Acknowledge { events: Seq::empty(), welcomes: seq![cursor] },
        ),
    ensures
        welcome_joining(view, user, cursor, welcome, false) is Ok,
{
    noting_is_owed(
        view,
        receipt_id(user, Seq::empty(), seq![cursor]),
        RequestView::Acknowledge { events: Seq::empty(), welcomes: seq![cursor] },
    );
}

/// Whether an event is over for a client: it has the given state in the inbox, its room
/// stands at its position, its receipt is noted, and nothing else changed but perhaps
/// the history, the wishes and other requests.
pub open spec fn over(
    before: ClientView,
    after: ClientView,
    outbox: Seq<OutboxRowView>,
    user: UserId,
    event: EventView,
    state: Arrival,
) -> bool {
    &&& after == (ClientView {
        outbox: after.outbox,
        history: after.history,
        intents: after.intents,
        cursors: before.cursors.insert(event.operation.room, (event.operation.parent + 1) as u64),
        inbox: if before.inbox.contains_key(event.id) {
            before.inbox.insert(event.id, InboxRowView { state, ..before.inbox[event.id] })
        } else {
            before.inbox
        },
        ..before
    })
    &&& noted(
        outbox,
        after.outbox,
        receipt_id(user, seq![event.id], Seq::empty()),
        RequestView::Acknowledge { events: seq![event.id], welcomes: Seq::empty() },
    )
}

proof fn finishing_is_over(view: ClientView, user: UserId, event: EventView, state: Arrival)
    requires
        event_finishing(view.outbox, user, event, state) is Ok,
    ensures
        ({
            let after = client_all_applied(
                view,
                event_finishing(view.outbox, user, event, state)->Ok_0,
            );
            &&& over(view, after, view.outbox, user, event, state)
            &&& after.history == view.history
            &&& after.intents == view.intents
        }),
{
    let receipt = receipt_id(user, seq![event.id], Seq::empty());
    let request = crate::client::journal::event_receipt(event.id);
    let journal = journaled(view.outbox, receipt, request)->Ok_0;
    let first = ClientChangeView::InboxState { id: event.id, state };
    let second = ClientChangeView::Cursor {
        room: event.operation.room,
        sequence: (event.operation.parent + 1) as u64,
    };
    applied_two(view, first, second);
    let middle = client_applied(client_applied(view, first), second);
    applied_in_parts(view, seq![first, second], journal);
    journaled_is_noted(middle, receipt, request);
}

/// Whether a history holds a message: at its end, or, where it stood there already, with
/// its position renewed; with every other message as it was.
pub open spec fn recorded(
    before: Seq<HistoryRowView>,
    after: Seq<HistoryRowView>,
    row: HistoryRowView,
) -> bool {
    if exists|i: int| 0 <= i < before.len() && (#[trigger] before[i]).message_id == row.message_id {
        renumbered(before, after, row.message_id, row.sequence)
    } else {
        after == before.push(row)
    }
}

/// Whether a history is the same, but for the position of one message.
pub open spec fn renumbered(
    before: Seq<HistoryRowView>,
    after: Seq<HistoryRowView>,
    id: MessageId,
    sequence: u64,
) -> bool {
    &&& after.len() == before.len()
    &&& forall|i: int|
        0 <= i < before.len() ==> #[trigger] after[i] == if before[i].message_id == id {
            HistoryRowView { sequence, ..before[i] }
        } else {
            before[i]
        }
}

pub(crate) proof fn message_is_recorded(view: ClientView, row: HistoryRowView)
    requires
        client_in_order(view),
    ensures
        recorded(
            view.history,
            client_applied(
                view,
                ClientChangeView::History {
                    message_id: row.message_id,
                    room: row.room,
                    sequence: row.sequence,
                    author: row.author,
                    plaintext: row.plaintext,
                },
            ).history,
            row,
        ),
        renumbered(
            view.history,
            client_applied(
                view,
                ClientChangeView::HistorySequence {
                    message_id: row.message_id,
                    sequence: row.sequence,
                },
            ).history,
            row.message_id,
            row.sequence,
        ),
{
    history_index_is_first(view.history, row.message_id);
    let at = history_index(view.history, row.message_id);
    if at >= view.history.len() {
        assert(forall|i: int|
            0 <= i < view.history.len() ==> (#[trigger] view.history[i]).message_id
                != row.message_id);
    }
}

/// An event of somebody else that the group took is over, as applied. Where it was a
/// message, the message is in the history with its author, at the event's position;
/// otherwise the history is as it was. The wishes are as they were.
pub proof fn applying_an_event(
    view: ClientView,
    user: UserId,
    event: EventView,
    processed: ProcessedView,
)
    requires
        client_in_order(view),
        event_applied(view, user, event, processed) is Ok,
    ensures
        ({
            let after = client_all_applied(view, event_applied(view, user, event, processed)->Ok_0);
            &&& over(view, after, view.outbox, user, event, Arrival::Applied)
            &&& after.intents == view.intents
            &&& match processed {
                ProcessedView::Application { plaintext, author } => author.len() == 16 && recorded(
                    view.history,
                    after.history,
                    HistoryRowView {
                        message_id: event.id,
                        room: event.operation.room,
                        sequence: (event.operation.parent + 1) as u64,
                        author: UserId::of(author),
                        plaintext,
                    },
                ),
                _ => after.history == view.history,
            }
        }),
{
    match processed {
        ProcessedView::Application { plaintext, author } => {
            let row = HistoryRowView {
                message_id: event.id,
                room: event.operation.room,
                sequence: (event.operation.parent + 1) as u64,
                author: UserId::of(author),
                plaintext,
            };
            let change = ClientChangeView::History {
                message_id: row.message_id,
                room: row.room,
                sequence: row.sequence,
                author: row.author,
                plaintext: row.plaintext,
            };
            let middle = client_applied(view, change);
            let rest = event_finishing(view.outbox, user, event, Arrival::Applied)->Ok_0;
            applied_one(view, change);
            applied_in_parts(view, seq![change], rest);
            message_is_recorded(view, row);
            finishing_is_over(middle, user, event, Arrival::Applied);
        },
        _ => {
            finishing_is_over(view, user, event, Arrival::Applied);
        },
    }
}

/// An event that the group refused: a blocked one is marked so and stays, and the client
/// does not go on; a rejected one is over, as rejected, and the client goes on. No
/// message comes of either.
pub proof fn refusing_an_event(
    view: ClientView,
    user: UserId,
    event: EventView,
    fault: ProcessingFault,
)
    requires
        event_refused(view, user, event, fault) is Ok,
    ensures
        ({
            let (goes_on, changes) = event_refused(view, user, event, fault)->Ok_0;
            let after = client_all_applied(view, changes);
            match fault {
                ProcessingFault::Blocked => !goes_on && after == (ClientView {
                    inbox: if view.inbox.contains_key(event.id) {
                        view.inbox.insert(
                            event.id,
                            InboxRowView { state: Arrival::Blocked, ..view.inbox[event.id] },
                        )
                    } else {
                        view.inbox
                    },
                    ..view
                }),
                ProcessingFault::Rejected => goes_on && over(
                    view,
                    after,
                    view.outbox,
                    user,
                    event,
                    Arrival::Rejected,
                ) && after.history == view.history && after.intents == view.intents,
            }
        }),
{
    applied_one(
        view,
        ClientChangeView::InboxState { id: event.id, state: Arrival::Blocked },
    );
    if fault == ProcessingFault::Rejected {
        finishing_is_over(view, user, event, Arrival::Rejected);
    }
}

/// Where a client stands in a room.
pub open spec fn position_in(view: ClientView, room: RoomId) -> u64 {
    if view.cursors.contains_key(room) {
        view.cursors[room]
    } else {
        0
    }
}

/// Whether the journal holds exactly the request to append an operation, under an
/// identifier.
pub open spec fn holds_attempt(view: ClientView, event: EventView) -> bool {
    exists|i: int|
        0 <= i < view.outbox.len() && (#[trigger] view.outbox[i]).request_id == event.id && decoded::<
            ClientMessage,
        >(view.outbox[i].message) == Ok::<ClientMessageView, crate::protocol::DecodeMessageError>(
            ClientMessageView::Delivery {
                request_id: event.id,
                request: RequestView::AppendRoomOperation(event.operation),
            },
        )
}

proof fn attempt_is_held(view: ClientView, event: EventView)
    requires
        own_attempt(view, event) is Ok,
    ensures
        outbox_has(view.outbox, event.id),
        holds_attempt(view, event),
{
    reveal(own_attempt);
    outbox_index_is_first(view.outbox, event.id);
    let at = outbox_index(view.outbox, event.id) as int;
    assert(outbox_has(view.outbox, event.id));
    assert(view.outbox[at].request_id == event.id);
}

proof fn attempt_is_missing(view: ClientView, event: EventView)
    ensures
        own_attempt(view, event) == Err::<(), EngineError>(
            EngineError::Refused(Refusal::OwnWithoutAttempt),
        ) <==> !waits(view.outbox, event.id),
        own_attempt(view, event) != Err::<(), EngineError>(
            EngineError::Refused(Refusal::NoncontiguousProcessing),
        ),
{
    reveal(own_attempt);
    waiting_is_indexed(view.outbox, event.id);
}

/// Whether a client is what its own event leaves.
pub open spec fn settled_by(
    view: ClientView,
    after: ClientView,
    user: UserId,
    event: EventView,
) -> bool {
    &&& over(
        view,
        after,
        journal_without(view.outbox, event.id),
        user,
        event,
        Arrival::Applied,
    )
    &&& renumbered(view.history, after.history, event.id, (event.operation.parent + 1) as u64)
    &&& forall|room: RoomId| #[trigger]
        after.intents.contains_key(room) <==> view.intents.contains_key(room)
            && view.intents[room].attempt != Some(event.id)
    &&& forall|room: RoomId| #[trigger]
        after.intents.contains_key(room) ==> after.intents[room] == view.intents[room]
}

proof fn own_event_settles(view: ClientView, user: UserId, event: EventView)
    requires
        client_in_order(view),
        own_settling(view, user, event) is Ok,
    ensures
        own_attempt(view, event) is Ok,
        settled_by(
            view,
            client_all_applied(view, own_settling(view, user, event)->Ok_0),
            user,
            event,
        ),
{
    removal_leaves_the_others(view, event.id);
    let first = ClientChangeView::OutboxRemoved { request_id: event.id };
    let second = ClientChangeView::IntentsRemoved { attempt: event.id };
    let third = ClientChangeView::HistorySequence {
        message_id: event.id,
        sequence: (event.operation.parent + 1) as u64,
    };
    applied_three(view, first, second, third);
    let middle = client_applied(client_applied(client_applied(view, first), second), third);
    let rest = event_finishing(middle.outbox, user, event, Arrival::Applied)->Ok_0;
    applied_in_parts(view, seq![first, second, third], rest);
    finishing_is_over(middle, user, event, Arrival::Applied);
    message_is_recorded(
        view,
        HistoryRowView {
            message_id: event.id,
            room: event.operation.room,
            sequence: (event.operation.parent + 1) as u64,
            author: user,
            plaintext: Seq::empty(),
        },
    );
}

/// What is to be done with an event: one that does not follow where the client stands is
/// refused; one of somebody else goes to the group. One of the client's own is taken
/// only where the journal holds exactly the request for it: the request is then gone,
/// the wishes that it was an attempt at are gone, its message stands in the history at
/// the event's position, a commit that was under way is taken, and the event is over,
/// as applied.
pub proof fn planning_an_event(view: ClientView, user: UserId, event: EventView)
    requires
        client_in_order(view),
    ensures
        ({
            let follows = position_in(view, event.operation.room) == event.operation.parent;
            match event_plan(view, user, event) {
                Ok(EventPlanView::Foreign) => follows && event.sender != user,
                Ok(EventPlanView::Own { step, changes }) => {
                    let after = client_all_applied(view, changes);
                    &&& follows
                    &&& event.sender == user
                    &&& holds_attempt(view, event)
                    &&& step == match event.operation.content_type {
                        MlsContentType::Commit => GroupStep::Settle(event.operation.room),
                        _ => GroupStep::Nothing,
                    }
                    &&& settled_by(view, after, user, event)
                },
                Err(EngineError::Refused(Refusal::NoncontiguousProcessing)) => !follows,
                Err(error) => {
                    &&& follows
                    &&& event.sender == user
                    &&& error == EngineError::Refused(Refusal::OwnWithoutAttempt) <==> !waits(
                        view.outbox,
                        event.id,
                    )
                },
            }
        }),
{
    if event.sender == user {
        if own_settling(view, user, event) is Ok {
            own_event_settles(view, user, event);
            attempt_is_held(view, event);
        }
        attempt_is_missing(view, event);
    }
}

/// A welcome is trusted exactly where it names a position that there can be, its inviter
/// is a contact, and it is signed under that contact's key, for this user, over the
/// room, the event, the position and the body that it names.
pub proof fn trusting_a_welcome(view: ClientView, user: UserId, welcome: WelcomeDeliveryView)
    ensures
        welcome_verified(view, user, welcome) is Ok <==> {
            &&& 1 <= welcome.sequence <= 0x7fff_ffff_ffff_ffff
            &&& view.contacts.contains_key(welcome.inviter)
            &&& required_contact(view, welcome.inviter) matches Ok(card) && signature_valid(
                card.transport_key,
                welcome_data(
                    user,
                    welcome.room,
                    welcome.event,
                    welcome.sequence,
                    welcome.attachment.body,
                ),
                welcome.attachment.signature@,
            )
        },
{
}

/// Joining by a welcome, where there was no group: the room stands at the welcome's
/// position, under the name that it came with, as it is kept, and as one that the client
/// was welcomed to unless it was known before; the welcome is applied, its receipt is
/// noted, and nothing else changes. A room in which the client stands already, or whose
/// group it has, is refused.
pub proof fn joining_by_a_welcome(
    view: ClientView,
    user: UserId,
    cursor: u64,
    welcome: WelcomeDeliveryView,
    had_group: bool,
)
    ensures
        match welcome_joining(view, user, cursor, welcome, had_group) {
            Ok(changes) => {
                let after = client_all_applied(view, changes);
                &&& !had_group
                &&& !view.cursors.contains_key(welcome.room)
                &&& welcome.sequence <= 0x7fff_ffff_ffff_ffff
                &&& normalized_name(welcome.room_name) is Ok
                &&& after == (ClientView {
                    outbox: after.outbox,
                    cursors: view.cursors.insert(welcome.room, welcome.sequence),
                    rooms: view.rooms.insert(
                        welcome.room,
                        RoomEntryView {
                            name: normalized_name(welcome.room_name)->Ok_0,
                            origin: if view.rooms.contains_key(welcome.room) {
                                view.rooms[welcome.room].origin
                            } else {
                                "welcomed"@
                            },
                        },
                    ),
                    welcomes: if view.welcomes.contains_key(cursor) {
                        view.welcomes.insert(
                            cursor,
                            WelcomeInboxRowView {
                                state: Arrival::Applied,
                                ..view.welcomes[cursor]
                            },
                        )
                    } else {
                        view.welcomes
                    },
                    ..view
                })
                &&& noted(
                    view.outbox,
                    after.outbox,
                    receipt_id(user, Seq::empty(), seq![cursor]),
                    RequestView::Acknowledge { events: Seq::empty(), welcomes: seq![cursor] },
                )
            },
            Err(EngineError::Refused(refusal)) => had_group && refusal == Refusal::RoomExists,
            Err(_) => !had_group,
        },
{
    if let Ok(changes) = welcome_joining(view, user, cursor, welcome, had_group) {
        let receipt = receipt_id(user, Seq::empty(), seq![cursor]);
        let request = crate::client::journal::welcome_receipt(cursor);
        let journal = journaled(view.outbox, receipt, request)->Ok_0;
        let first = ClientChangeView::Cursor { room: welcome.room, sequence: welcome.sequence };
        let second = ClientChangeView::Room {
            room: welcome.room,
            name: normalized_name(welcome.room_name)->Ok_0,
            origin: "welcomed"@,
        };
        let third = ClientChangeView::WelcomeState { cursor, state: Arrival::Applied };
        applied_three(view, first, second, third);
        let middle = client_applied(client_applied(client_applied(view, first), second), third);
        let three = seq![first, second, third];
        assert(changes =~= three + journal);
        applied_in_parts(view, three, journal);
        journaled_is_noted(middle, receipt, request);
    }
}

} // verus!
