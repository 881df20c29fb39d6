//! The journal of requests, and what every part of the engine builds on.
use vstd::prelude::*;
use crate::bytes::same_slices;
use crate::client::errors::StoreError;
use crate::client::groups::PackageFault;
use crate::client::store::{
    joined, one_change, outbox_saving, two_changes, unchanged, within_budget, ClientStore,
    DatabaseSize,
};
use crate::client::tables::{
    outbox_has, outbox_index, position_taken, removed_at, Arrival, ClientChange, ClientChangeView,
    ClientView, OutboxRowView, MAX_POSITION,
};
use crate::delivery::{
    copy_bytes, Event, EventView, StoredRoomMessage, StoredRoomMessageView, MAX_PAYLOAD,
};
use crate::ids::{MessageId, RoomId, UserId};
use crate::messages::{ClientMessage, ClientMessageView};
use crate::protocol::{encode_message, DecodeMessageError};
use crate::requests::{Request, RequestView};
use crate::transcripts::{acknowledgement_id, receipt_id};
use crate::varint::WireError;
use crate::wire::Wire;

verus! {

/// What the engine refuses.
#[derive(Clone, Copy, Debug, PartialEq, Eq, Structural)]
pub enum Refusal {
    NoGroup,
    ReservationUnmatched,
    ResponseDiffers,
    EventSequence,
    Equivocation,
    AddWithoutTarget,
    SendWithoutPlaintext,
    UnresolvedCommit,
    WelcomeResponse,
    WelcomePage,
    WelcomeMismatch,
    WelcomeBoundary,
    WelcomeSignature,
    IndexResponse,
    EmptyIndex,
    IndexOrder,
    HeadRegression,
    EventsResponse,
    OmittedSequence,
    NoncontiguousPage,
    NoncontiguousProcessing,
    OwnWithoutAttempt,
    InvalidOwnAttempt,
    OwnDiffers,
    InvalidAuthor,
    OldOutbox,
    OutboxMismatch,
    UnexpectedResponse,
    RoomExists,
}

impl Refusal {
    pub open spec fn text(self) -> Seq<char> {
        match self {
            Refusal::NoGroup => "no verified MLS group for room"@,
            Refusal::ReservationUnmatched => "reservation has no matching durable target"@,
            Refusal::ResponseDiffers => "response differs from durable operation"@,
            Refusal::EventSequence => "invalid event sequence"@,
            Refusal::Equivocation => "relay equivocated about an event"@,
            Refusal::AddWithoutTarget => "add intent has no target"@,
            Refusal::SendWithoutPlaintext => "send intent has no plaintext"@,
            Refusal::UnresolvedCommit => "room has an unresolved commit"@,
            Refusal::WelcomeResponse => "invalid Welcome recovery response"@,
            Refusal::WelcomePage => "invalid Welcome page cursor"@,
            Refusal::WelcomeMismatch => "Welcome cursor or target mismatch"@,
            Refusal::WelcomeBoundary => "invalid Welcome boundary"@,
            Refusal::WelcomeSignature => "signature error"@,
            Refusal::IndexResponse => "invalid room index response"@,
            Refusal::EmptyIndex => "empty continuing room index"@,
            Refusal::IndexOrder => "room index is not ordered"@,
            Refusal::HeadRegression => "invalid or regressing room head"@,
            Refusal::EventsResponse => "invalid room recovery response"@,
            Refusal::OmittedSequence => "room history omitted a required sequence"@,
            Refusal::NoncontiguousPage => "noncontiguous room event page"@,
            Refusal::NoncontiguousProcessing => "attempted noncontiguous MLS processing"@,
            Refusal::OwnWithoutAttempt => "own event has no exact durable attempt"@,
            Refusal::InvalidOwnAttempt => "invalid own attempt"@,
            Refusal::OwnDiffers => "own event differs from exact attempt"@,
            Refusal::InvalidAuthor => "invalid stored user"@,
            Refusal::OldOutbox => "unsupported old outbox protocol"@,
            Refusal::OutboxMismatch => "outbox ID mismatch"@,
            Refusal::UnexpectedResponse => "unexpected V9 response"@,
            Refusal::RoomExists => "room already exists; refusing another Welcome boundary"@,
        }
    }

    pub fn message(&self) -> (text: &'static str)
        ensures
            text@ == self.text(),
    {
        match self {
            Refusal::NoGroup => "no verified MLS group for room",
            Refusal::ReservationUnmatched => "reservation has no matching durable target",
            Refusal::ResponseDiffers => "response differs from durable operation",
            Refusal::EventSequence => "invalid event sequence",
            Refusal::Equivocation => "relay equivocated about an event",
            Refusal::AddWithoutTarget => "add intent has no target",
            Refusal::SendWithoutPlaintext => "send intent has no plaintext",
            Refusal::UnresolvedCommit => "room has an unresolved commit",
            Refusal::WelcomeResponse => "invalid Welcome recovery response",
            Refusal::WelcomePage => "invalid Welcome page cursor",
            Refusal::WelcomeMismatch => "Welcome cursor or target mismatch",
            Refusal::WelcomeBoundary => "invalid Welcome boundary",
            Refusal::WelcomeSignature => "signature error",
            Refusal::IndexResponse => "invalid room index response",
            Refusal::EmptyIndex => "empty continuing room index",
            Refusal::IndexOrder => "room index is not ordered",
            Refusal::HeadRegression => "invalid or regressing room head",
            Refusal::EventsResponse => "invalid room recovery response",
            Refusal::OmittedSequence => "room history omitted a required sequence",
            Refusal::NoncontiguousPage => "noncontiguous room event page",
            Refusal::NoncontiguousProcessing => "attempted noncontiguous MLS processing",
            Refusal::OwnWithoutAttempt => "own event has no exact durable attempt",
            Refusal::InvalidOwnAttempt => "invalid own attempt",
            Refusal::OwnDiffers => "own event differs from exact attempt",
            Refusal::InvalidAuthor => "invalid stored user",
            Refusal::OldOutbox => "unsupported old outbox protocol",
            Refusal::OutboxMismatch => "outbox ID mismatch",
            Refusal::UnexpectedResponse => "unexpected V9 response",
            Refusal::RoomExists => "room already exists; refusing another Welcome boundary",
        }
    }
}

/// Why the engine does not go on.
#[derive(Clone, Copy, Debug, PartialEq, Eq, Structural)]
pub enum EngineError {
    Store(StoreError),
    Encode(WireError),
    Decode(DecodeMessageError),
    Package(PackageFault),
    Refused(Refusal),
}

/// Whether a result is the one that a plan gives.
pub open spec fn plans(
    result: Result<Vec<ClientChange>, EngineError>,
    plan: Result<Seq<ClientChangeView>, EngineError>,
) -> bool {
    match plan {
        Ok(changes) => result matches Ok(got) && got.deep_view() == changes,
        Err(error) => result matches Err(got) && got == error,
    }
}

/// A plan of the store as one of the engine.
pub open spec fn of_store(plan: Result<Seq<ClientChangeView>, StoreError>) -> Result<
    Seq<ClientChangeView>,
    EngineError,
> {
    match plan {
        Ok(changes) => Ok(changes),
        Err(error) => Err(EngineError::Store(error)),
    }
}

pub(crate) fn from_store(result: Result<Vec<ClientChange>, StoreError>) -> (mapped: Result<
    Vec<ClientChange>,
    EngineError,
>)
    ensures
        match result {
            Ok(changes) => mapped == Ok::<Vec<ClientChange>, EngineError>(changes),
            Err(error) => mapped == Err::<Vec<ClientChange>, EngineError>(EngineError::Store(error)),
        },
{
    match result {
        Ok(changes) => Ok(changes),
        Err(error) => Err(EngineError::Store(error)),
    }
}

/// What changes give behind other changes.
pub open spec fn behind_changes(
    first: Seq<ClientChangeView>,
    rest: Result<Seq<ClientChangeView>, EngineError>,
) -> Result<Seq<ClientChangeView>, EngineError> {
    match rest {
        Ok(changes) => Ok(first + changes),
        Err(error) => Err(error),
    }
}

/// The journal when a request, if any, leaves it.
pub open spec fn outbox_without(outbox: Seq<OutboxRowView>, removed: Option<MessageId>) -> Seq<
    OutboxRowView,
> {
    match removed {
        Some(id) => removed_at(outbox, outbox_index(outbox, id)),
        None => outbox,
    }
}

/// The text in front of every journaled request.
pub open spec fn journal_kind() -> Seq<char> {
    "Delivery"@
}

/// The message of a journaled request.
pub open spec fn journal_message(id: MessageId, request: RequestView) -> Seq<u8> {
    ClientMessage::encoded(ClientMessageView::Delivery { request_id: id, request })
}

/// What is written to journal a request, whatever the budget.
pub open spec fn journaled(
    outbox: Seq<OutboxRowView>,
    id: MessageId,
    request: RequestView,
) -> Result<
    Seq<ClientChangeView>,
    EngineError,
> {
    let message = journal_message(id, request);
    if message.len() > MAX_PAYLOAD {
        Err(EngineError::Encode(WireError::BufferFull))
    } else {
        of_store(outbox_saving(outbox, id, journal_kind(), message))
    }
}

/// What is written to journal a request. Receipts need no budget.
pub open spec fn journaling(
    outbox: Seq<OutboxRowView>,
    budget: u64,
    id: MessageId,
    request: RequestView,
    size: DatabaseSize,
) -> Result<Seq<ClientChangeView>, EngineError> {
    let length = Request::encoded(request).len();
    if request is Acknowledge {
        journaled(outbox, id, request)
    } else if length > MAX_PAYLOAD {
        Err(EngineError::Encode(WireError::BufferFull))
    } else if !within_budget(size, length, budget) {
        Err(EngineError::Store(StoreError::Quota))
    } else {
        journaled(outbox, id, request)
    }
}

/// Whether a room has an attempt that may have been accepted: it is journaled,
/// and its event has not come.
pub open spec fn attempt_unresolved(view: ClientView, room: RoomId) -> bool {
    view.intents.contains_key(room) && match view.intents[room].attempt {
        Some(attempt) => outbox_has(view.outbox, attempt) && !view.inbox.contains_key(attempt),
        None => false,
    }
}

/// Up to where a room has been processed.
pub open spec fn room_cursor(view: ClientView, room: RoomId) -> u64 {
    if view.cursors.contains_key(room) {
        view.cursors[room]
    } else {
        0
    }
}

/// What is written when an event comes. An event that is there must be the same
/// one, and no other may stand at its position.
pub open spec fn receiving(
    view: ClientView,
    budget: u64,
    event: EventView,
    size: DatabaseSize,
) -> Result<
    Seq<ClientChangeView>,
    EngineError,
> {
    let record = Event::encoded(event);
    match Event::position(event) {
        None => Err(EngineError::Refused(Refusal::EventSequence)),
        Some(sequence) => if sequence > MAX_POSITION {
            Err(EngineError::Refused(Refusal::EventSequence))
        } else if record.len() > MAX_PAYLOAD {
            Err(EngineError::Encode(WireError::BufferFull))
        } else if view.inbox.contains_key(event.id) {
            if view.inbox[event.id].record == record {
                Ok(unchanged())
            } else {
                Err(EngineError::Refused(Refusal::Equivocation))
            }
        } else if position_taken(view.inbox, event.operation.room, sequence) {
            Err(EngineError::Refused(Refusal::Equivocation))
        } else if !within_budget(size, record.len(), budget) {
            Err(EngineError::Store(StoreError::Quota))
        } else {
            Ok(
                seq![
                    ClientChangeView::Inbox {
                        id: event.id,
                        room: event.operation.room,
                        sequence,
                        record,
                    },
                ],
            )
        },
    }
}

/// The receipt of an event.
pub open spec fn event_receipt(event: MessageId) -> RequestView {
    RequestView::Acknowledge { events: seq![event], welcomes: Seq::empty() }
}

/// The receipt of a welcome.
pub open spec fn welcome_receipt(cursor: u64) -> RequestView {
    RequestView::Acknowledge { events: Seq::empty(), welcomes: seq![cursor] }
}

/// What is written when an event has been processed: its state, the new cursor
/// of its room, and its receipt.
pub open spec fn event_finishing(
    outbox: Seq<OutboxRowView>,
    user: UserId,
    event: EventView,
    state: Arrival,
) -> Result<Seq<ClientChangeView>, EngineError> {
    let sequence = event.operation.parent + 1;
    if sequence > MAX_POSITION {
        Err(EngineError::Store(StoreError::Database))
    } else {
        behind_changes(
            seq![
                ClientChangeView::InboxState { id: event.id, state },
                ClientChangeView::Cursor { room: event.operation.room, sequence: sequence as u64 },
            ],
            journaled(
                outbox,
                receipt_id(user, seq![event.id], Seq::empty()),
                event_receipt(event.id),
            ),
        )
    }
}

/// An event as it is kept.
pub open spec fn event_envelope(event: EventView) -> StoredRoomMessageView {
    StoredRoomMessageView {
        message_id: event.id,
        room_id: event.operation.room,
        sequence: (event.operation.parent + 1) as u64,
        sender_id: event.sender,
        epoch: event.operation.epoch,
        content_type: event.operation.content_type,
        body: event.operation.body,
    }
}

/// An event as it is kept.
pub fn envelope(event: &Event) -> (message: StoredRoomMessage)
    requires
        event.operation.parent < u64::MAX,
    ensures
        message.deep_view() == event_envelope(event.deep_view()),
{
    StoredRoomMessage {
        message_id: event.id,
        room_id: event.operation.room,
        sequence: event.operation.parent + 1,
        sender_id: event.sender,
        epoch: event.operation.epoch,
        content_type: event.operation.content_type,
        body: copy_bytes(&event.operation.body),
    }
}

/// The rules of a client: what it writes for what it is told.
pub struct Engine {
    pub store: ClientStore,
    pub user: UserId,
}

impl Engine {
    /// Whether a room has an attempt that may have been accepted.
    pub fn unresolved(&self, room: RoomId) -> (yes: bool)
        ensures
            yes == attempt_unresolved(self.store@, room),
    {
        match self.store.tables.intents.get(&room) {
            Some(row) => match row.attempt {
                Some(attempt) => self.store.tables.find_request(attempt)
                    < self.store.tables.outbox.len() && !self.store.tables.inbox.contains(&attempt),
                None => false,
            },
            None => false,
        }
    }

    /// Up to where a room has been processed.
    pub fn cursor(&self, room: RoomId) -> (sequence: u64)
        ensures
            sequence == room_cursor(self.store@, room),
    {
        match self.store.tables.cursors.get(&room) {
            Some(sequence) => *sequence,
            None => 0,
        }
    }

    /// What is written to journal a request, whatever the budget, when another one
    /// may leave the journal.
    pub(crate) fn journal_now(&self, removed: Option<MessageId>, id: MessageId, request: Request) -> (result:
        Result<Vec<ClientChange>, EngineError>)
        ensures
            plans(
                result,
                journaled(
                    outbox_without(self.store@.outbox, removed),
                    id,
                    request.deep_view(),
                ),
            ),
    {
        match encode_message(&ClientMessage::Delivery { request_id: id, request }) {
            Ok(bytes) => match removed {
                Some(removed) => from_store(
                    self.store.save_outbox_after(removed, id, "Delivery", bytes.as_slice()),
                ),
                None => from_store(self.store.save_outbox(id, "Delivery", bytes.as_slice())),
            },
            Err(error) => Err(EngineError::Encode(error)),
        }
    }

    /// What is written to journal a request.
    pub fn journal(&self, id: MessageId, request: Request, size: DatabaseSize) -> (result: Result<
        Vec<ClientChange>,
        EngineError,
    >)
        ensures
            plans(
                result,
                journaling(
                    self.store@.outbox,
                    self.store.budget(),
                    id,
                    request.deep_view(),
                    size,
                ),
            ),
    {
        let receipt = match &request {
            Request::Acknowledge { .. } => true,
            _ => false,
        };
        if !receipt {
            match encode_message(&request) {
                Ok(bytes) => match self.store.admit_new_data(bytes.len(), size) {
                    Ok(()) => {},
                    Err(error) => return Err(EngineError::Store(error)),
                },
                Err(error) => return Err(EngineError::Encode(error)),
            }
        }
        self.journal_now(None, id, request)
    }

    /// What is written when an event comes.
    pub fn receive(&self, event: &Event, size: DatabaseSize) -> (result: Result<
        Vec<ClientChange>,
        EngineError,
    >)
        ensures
            plans(
                result,
                receiving(self.store@, self.store.budget(), event.deep_view(), size),
            ),
    {
        let sequence = match event.sequence() {
            Some(sequence) => sequence,
            None => return Err(EngineError::Refused(Refusal::EventSequence)),
        };
        if sequence > MAX_POSITION {
            return Err(EngineError::Refused(Refusal::EventSequence));
        }
        let record = match encode_message(event) {
            Ok(record) => record,
            Err(error) => return Err(EngineError::Encode(error)),
        };
        if let Some(row) = self.store.tables.inbox.get(&event.id) {
            if !same_slices(row.record.as_slice(), record.as_slice()) {
                return Err(EngineError::Refused(Refusal::Equivocation));
            }
            let changes: Vec<ClientChange> = Vec::new();
            assert(changes.deep_view() =~= unchanged());
            return Ok(changes);
        }
        if self.store.tables.event_at(event.operation.room, sequence).is_some() {
            return Err(EngineError::Refused(Refusal::Equivocation));
        }
        match self.store.admit_new_data(record.len(), size) {
            Ok(()) => {},
            Err(error) => return Err(EngineError::Store(error)),
        }
        Ok(
            one_change(
                ClientChange::Inbox {
                    id: event.id,
                    room: event.operation.room,
                    sequence,
                    record,
                },
            ),
        )
    }

    /// What is written when an event has been processed and a request may leave the
    /// journal.
    pub(crate) fn finish_event(&self, removed: Option<MessageId>, event: &Event, state: Arrival) -> (result:
        Result<Vec<ClientChange>, EngineError>)
        ensures
            plans(
                result,
                event_finishing(
                    outbox_without(self.store@.outbox, removed),
                    self.user,
                    event.deep_view(),
                    state,
                ),
            ),
    {
        if event.operation.parent >= MAX_POSITION {
            return Err(EngineError::Store(StoreError::Database));
        }
        let mut events: Vec<MessageId> = Vec::new();
        events.push(event.id);
        let welcomes: Vec<u64> = Vec::new();
        assert(events@ =~= seq![event.id]);
        assert(welcomes@ =~= Seq::<u64>::empty());
        let id = acknowledgement_id(self.user, events.as_slice(), welcomes.as_slice());
        assert(events.deep_view() =~= seq![event.id]);
        assert(welcomes.deep_view() =~= Seq::<u64>::empty());
        let journal = match self.journal_now(
            removed,
            id,
            Request::Acknowledge { events, welcomes },
        ) {
            Ok(journal) => journal,
            Err(error) => return Err(error),
        };
        let first = two_changes(
            ClientChange::InboxState { id: event.id, state },
            ClientChange::Cursor {
                room: event.operation.room,
                sequence: event.operation.parent + 1,
            },
        );
        Ok(joined(first, journal))
    }
}

} // verus!
