//! What a client does with the events of a room, one after the other.
use vstd::prelude::*;
use crate::client::complete::GroupStep;
use crate::client::errors::StoreError;
use crate::client::groups::{Processed, ProcessedView, ProcessingFault};
use crate::client::journal::{
    behind_changes, envelope, event_finishing, outbox_without, plans, room_cursor, Engine,
    EngineError, Refusal,
};
use crate::client::store::{joined, one_change, stored_user_id, three_changes};
use crate::client::tables::{
    outbox_has, outbox_index, Arrival, ClientChange, ClientChangeView, ClientView, MAX_POSITION,
};
use crate::delivery::{Event, EventView, MlsContentType};
use crate::ids::UserId;
use crate::messages::{ClientMessage, ClientMessageView};
use crate::protocol::{decode_message, decoded};
use crate::requests::{Request, RequestView};

verus! {

/// What the next event of a room asks for.
#[derive(Debug)]
pub enum EventPlan {
    /// It is the own one: what is done to the group, and what is written.
    Own { step: GroupStep, changes: Vec<ClientChange> },
    /// The group library processes it.
    Foreign,
}

/// What an [`EventPlan`] holds.
#[verifier::ext_equal]
pub enum EventPlanView {
    Own { step: GroupStep, changes: Seq<ClientChangeView> },
    Foreign,
}

impl DeepView for EventPlan {
    type V = EventPlanView;

    open spec fn deep_view(&self) -> EventPlanView {
        match self {
            EventPlan::Own { step, changes } => EventPlanView::Own {
                step: *step,
                changes: changes.deep_view(),
            },
            EventPlan::Foreign => EventPlanView::Foreign,
        }
    }
}

/// Whether an own event is the attempt that was journaled.
#[verifier::opaque]
pub open spec fn own_attempt(view: ClientView, event: EventView) -> Result<(), EngineError> {
    if !outbox_has(view.outbox, event.id) {
        Err(EngineError::Refused(Refusal::OwnWithoutAttempt))
    } else {
        match decoded::<ClientMessage>(
            view.outbox[outbox_index(view.outbox, event.id) as int].message,
        ) {
            Err(error) => Err(EngineError::Decode(error)),
            Ok(ClientMessageView::Delivery { request_id, request }) => match request {
                RequestView::AppendRoomOperation(operation) => if request_id == event.id
                    && operation == event.operation {
                    Ok(())
                } else {
                    Err(EngineError::Refused(Refusal::OwnDiffers))
                },
                _ => Err(EngineError::Refused(Refusal::InvalidOwnAttempt)),
            },
            Ok(_) => Err(EngineError::Refused(Refusal::InvalidOwnAttempt)),
        }
    }
}

/// What is written when an own event is in its room: the attempt is over, what it
/// was for is done, and its text has its position.
pub open spec fn own_settling(view: ClientView, user: UserId, event: EventView) -> Result<
    Seq<ClientChangeView>,
    EngineError,
> {
    match own_attempt(view, event) {
        Err(error) => Err(error),
        Ok(()) => behind_changes(
            seq![
                ClientChangeView::OutboxRemoved { request_id: event.id },
                ClientChangeView::IntentsRemoved { attempt: event.id },
                ClientChangeView::HistorySequence {
                    message_id: event.id,
                    sequence: (event.operation.parent + 1) as u64,
                },
            ],
            event_finishing(
                outbox_without(view.outbox, Some(event.id)),
                user,
                event,
                Arrival::Applied,
            ),
        ),
    }
}

/// What the next event of a room asks for. Events are taken only where the room
/// has been processed up to their parent.
pub open spec fn event_plan(view: ClientView, user: UserId, event: EventView) -> Result<
    EventPlanView,
    EngineError,
> {
    if room_cursor(view, event.operation.room) != event.operation.parent {
        Err(EngineError::Refused(Refusal::NoncontiguousProcessing))
    } else if event.sender != user {
        Ok(EventPlanView::Foreign)
    } else {
        match own_settling(view, user, event) {
            Err(error) => Err(error),
            Ok(changes) => Ok(
                EventPlanView::Own {
                    step: if event.operation.content_type == MlsContentType::Commit {
                        GroupStep::Settle(event.operation.room)
                    } else {
                        GroupStep::Nothing
                    },
                    changes,
                },
            ),
        }
    }
}

/// What is written when the group library took an event.
pub open spec fn event_applied(
    view: ClientView,
    user: UserId,
    event: EventView,
    processed: ProcessedView,
) -> Result<Seq<ClientChangeView>, EngineError> {
    let finished = event_finishing(view.outbox, user, event, Arrival::Applied);
    match processed {
        ProcessedView::Application { plaintext, author } => if author.len() != 16 {
            Err(EngineError::Refused(Refusal::InvalidAuthor))
        } else if event.operation.parent >= MAX_POSITION {
            Err(EngineError::Store(StoreError::Database))
        } else {
            behind_changes(
                seq![
                    ClientChangeView::History {
                        message_id: event.id,
                        room: event.operation.room,
                        sequence: (event.operation.parent + 1) as u64,
                        author: UserId::of(author),
                        plaintext,
                    },
                ],
                finished,
            )
        },
        _ => finished,
    }
}

/// What is written when an event was not taken, and whether the room goes on.
pub open spec fn event_refused(
    view: ClientView,
    user: UserId,
    event: EventView,
    fault: ProcessingFault,
) -> Result<(bool, Seq<ClientChangeView>), EngineError> {
    match fault {
        ProcessingFault::Blocked => Ok(
            (
                false,
                seq![ClientChangeView::InboxState { id: event.id, state: Arrival::Blocked }],
            ),
        ),
        ProcessingFault::Rejected => match event_finishing(
            view.outbox,
            user,
            event,
            Arrival::Rejected,
        ) {
            Ok(changes) => Ok((true, changes)),
            Err(error) => Err(error),
        },
    }
}

impl Engine {
    /// Whether an own event is the attempt that was journaled.
    fn check_own(&self, event: &Event) -> (result: Result<(), EngineError>)
        ensures
            result == own_attempt(self.store@, event.deep_view()),
    {
        proof {
            reveal(own_attempt);
        }
        let entry = match self.store.find_outbox(event.id) {
            Some(entry) => entry,
            None => return Err(EngineError::Refused(Refusal::OwnWithoutAttempt)),
        };
        match decode_message::<ClientMessage>(entry.message.as_slice()) {
            Err(error) => Err(EngineError::Decode(error)),
            Ok(ClientMessage::Delivery { request_id, request }) => match request {
                Request::AppendRoomOperation(operation) => {
                    if request_id.same(&event.id) && operation.same(&event.operation) {
                        Ok(())
                    } else {
                        Err(EngineError::Refused(Refusal::OwnDiffers))
                    }
                },
                _ => Err(EngineError::Refused(Refusal::InvalidOwnAttempt)),
            },
            Ok(_) => Err(EngineError::Refused(Refusal::InvalidOwnAttempt)),
        }
    }

    /// What the next event of a room asks for.
    pub fn plan_event(&self, event: &Event) -> (result: Result<EventPlan, EngineError>)
        ensures
            match event_plan(self.store@, self.user, event.deep_view()) {
                Ok(plan) => result matches Ok(got) && got.deep_view() == plan,
                Err(error) => result matches Err(got) && got == error,
            },
    {
        if self.cursor(event.operation.room) != event.operation.parent {
            return Err(EngineError::Refused(Refusal::NoncontiguousProcessing));
        }
        if !event.sender.same(&self.user) {
            return Ok(EventPlan::Foreign);
        }
        match self.check_own(event) {
            Ok(()) => {},
            Err(error) => return Err(error),
        }
        let finished = match self.finish_event(Some(event.id), event, Arrival::Applied) {
            Ok(finished) => finished,
            Err(error) => return Err(error),
        };
        let settled = three_changes(
            ClientChange::OutboxRemoved { request_id: event.id },
            ClientChange::IntentsRemoved { attempt: event.id },
            ClientChange::HistorySequence {
                message_id: event.id,
                sequence: event.operation.parent + 1,
            },
        );
        let step = if event.operation.content_type == MlsContentType::Commit {
            GroupStep::Settle(event.operation.room)
        } else {
            GroupStep::Nothing
        };
        Ok(EventPlan::Own { step, changes: joined(settled, finished) })
    }

    /// What is written when the group library took an event.
    pub fn apply_event(&self, event: &Event, processed: &Processed) -> (result: Result<
        Vec<ClientChange>,
        EngineError,
    >)
        ensures
            plans(
                result,
                event_applied(self.store@, self.user, event.deep_view(), processed.deep_view()),
            ),
    {
        match processed {
            Processed::Application { plaintext, author } => {
                let author = match stored_user_id(author.as_slice()) {
                    Ok(author) => author,
                    Err(_) => return Err(EngineError::Refused(Refusal::InvalidAuthor)),
                };
                proof {
                    author.determined_by_bytes();
                }
                if event.operation.parent >= MAX_POSITION {
                    return Err(EngineError::Store(StoreError::Database));
                }
                let recorded = match self.store.record_plaintext(
                    &envelope(event),
                    author,
                    plaintext.as_slice(),
                ) {
                    Ok(recorded) => recorded,
                    Err(error) => return Err(EngineError::Store(error)),
                };
                match self.finish_event(None, event, Arrival::Applied) {
                    Ok(finished) => Ok(joined(recorded, finished)),
                    Err(error) => Err(error),
                }
            },
            _ => self.finish_event(None, event, Arrival::Applied),
        }
    }

    /// What is written when an event was not taken, and whether the room goes on.
    pub fn refuse_event(&self, event: &Event, fault: ProcessingFault) -> (result: Result<
        (bool, Vec<ClientChange>),
        EngineError,
    >)
        ensures
            match event_refused(self.store@, self.user, event.deep_view(), fault) {
                Ok((goes_on, changes)) => result matches Ok((got, list)) && got == goes_on
                    && list.deep_view() == changes,
                Err(error) => result matches Err(got) && got == error,
            },
    {
        match fault {
            ProcessingFault::Blocked => Ok(
                (
                    false,
                    one_change(
                        ClientChange::InboxState { id: event.id, state: Arrival::Blocked },
                    ),
                ),
            ),
            ProcessingFault::Rejected => match self.finish_event(None, event, Arrival::Rejected) {
                Ok(changes) => Ok((true, changes)),
                Err(error) => Err(error),
            },
        }
    }
}

} // verus!
