//! The order in which a client works: what is journaled goes out first, then it
//! catches up, then it attempts what is wanted.
use vstd::prelude::*;
use crate::client::journal::{Engine, EngineError, Refusal};
use crate::client::store::{entry_of, page_of_outbox, OutboxEntry, OutboxEntryView};
use crate::client::tables::{ClientView, OutboxRowView};
use crate::ids::MessageId;
use crate::messages::{ClientMessage, ClientMessageView, RelayMessage, RelayMessageView};
use crate::protocol::{decode_message, decoded};
use crate::requests::{Request, RequestView, Response, ResponseView};

verus! {

/// How often a client goes round at most before it waits again.
pub const MAX_ROUNDS: u8 = 4;

/// The rows of a page of entries.
pub open spec fn rows_of(page: Seq<(i64, OutboxEntry)>) -> Seq<OutboxRowView> {
    Seq::new(
        page.len(),
        |i: int|
            OutboxRowView {
                rowid: page[i].0,
                request_id: page[i].1.request_id,
                kind: page[i].1.kind@,
                message: page[i].1.message@,
            },
    )
}

/// How far a client has worked.
#[derive(Debug)]
pub enum DriveState {
    Idle,
    /// An entry of a page of the journal was sent.
    Sent { round: u8, page: Vec<(i64, OutboxEntry)>, at: usize, request: Request },
    /// Its answer is worked in.
    Answered { round: u8, page: Vec<(i64, OutboxEntry)>, at: usize },
    CatchingUp { round: u8 },
    Attempting { round: u8 },
    Done,
}

/// What a [`DriveState`] holds.
#[verifier::ext_equal]
#[allow(inconsistent_fields)]
pub enum DriveStateView {
    Idle,
    Sent { round: u8, page: Seq<OutboxRowView>, at: nat, request: RequestView },
    Answered { round: u8, page: Seq<OutboxRowView>, at: nat },
    CatchingUp { round: u8 },
    Attempting { round: u8 },
    Done,
}

impl DeepView for DriveState {
    type V = DriveStateView;

    open spec fn deep_view(&self) -> DriveStateView {
        match self {
            DriveState::Idle => DriveStateView::Idle,
            DriveState::Sent { round, page, at, request } => DriveStateView::Sent {
                round: *round,
                page: rows_of(page@),
                at: *at as nat,
                request: request.deep_view(),
            },
            DriveState::Answered { round, page, at } => DriveStateView::Answered {
                round: *round,
                page: rows_of(page@),
                at: *at as nat,
            },
            DriveState::CatchingUp { round } => DriveStateView::CatchingUp { round: *round },
            DriveState::Attempting { round } => DriveStateView::Attempting { round: *round },
            DriveState::Done => DriveStateView::Done,
        }
    }
}

/// What happened.
#[derive(Debug)]
pub enum DriveEvent {
    Start,
    Answer(Response),
    /// The answer was worked in.
    Completed,
    CaughtUp,
    /// Whether an attempt was made.
    Attempted(bool),
}

/// What a [`DriveEvent`] holds.
#[verifier::ext_equal]
pub enum DriveEventView {
    Start,
    Answer(ResponseView),
    Completed,
    CaughtUp,
    Attempted(bool),
}

impl DeepView for DriveEvent {
    type V = DriveEventView;

    open spec fn deep_view(&self) -> DriveEventView {
        match self {
            DriveEvent::Start => DriveEventView::Start,
            DriveEvent::Answer(response) => DriveEventView::Answer(response.deep_view()),
            DriveEvent::Completed => DriveEventView::Completed,
            DriveEvent::CaughtUp => DriveEventView::CaughtUp,
            DriveEvent::Attempted(built) => DriveEventView::Attempted(*built),
        }
    }
}

/// What to do next.
#[derive(Debug)]
pub enum DriveAction {
    /// Send a request under its identifier.
    Send { id: MessageId, request: Request },
    /// Work an answer in.
    Complete { id: MessageId, request: Request, response: Response },
    CatchUp,
    Attempt,
    Finish,
}

/// What a [`DriveAction`] holds.
#[verifier::ext_equal]
#[allow(inconsistent_fields)]
pub enum DriveActionView {
    Send { id: MessageId, request: RequestView },
    Complete { id: MessageId, request: RequestView, response: ResponseView },
    CatchUp,
    Attempt,
    Finish,
}

impl DeepView for DriveAction {
    type V = DriveActionView;

    open spec fn deep_view(&self) -> DriveActionView {
        match self {
            DriveAction::Send { id, request } => DriveActionView::Send {
                id: *id,
                request: request.deep_view(),
            },
            DriveAction::Complete { id, request, response } => DriveActionView::Complete {
                id: *id,
                request: request.deep_view(),
                response: response.deep_view(),
            },
            DriveAction::CatchUp => DriveActionView::CatchUp,
            DriveAction::Attempt => DriveActionView::Attempt,
            DriveAction::Finish => DriveActionView::Finish,
        }
    }
}

/// A step: where the client stands then, and what it does.
pub type DriveStep = Result<(DriveStateView, DriveActionView), EngineError>;

/// The request of a journaled entry.
pub open spec fn entry_request(entry: OutboxEntryView) -> Result<RequestView, EngineError> {
    match decoded::<ClientMessage>(entry.message) {
        Err(error) => Err(EngineError::Decode(error)),
        Ok(ClientMessageView::Delivery { request_id, request }) => if request_id
            == entry.request_id {
            Ok(request)
        } else {
            Err(EngineError::Refused(Refusal::OutboxMismatch))
        },
        Ok(_) => Err(EngineError::Refused(Refusal::OldOutbox)),
    }
}

/// The step to an entry of a page.
pub open spec fn entry_step(round: u8, page: Seq<OutboxRowView>, at: nat) -> DriveStep {
    let row = page[at as int];
    match entry_request(entry_of(row)) {
        Err(error) => Err(error),
        Ok(request) => Ok(
            (
                DriveStateView::Sent { round, page, at, request },
                DriveActionView::Send { id: row.request_id, request },
            ),
        ),
    }
}

/// The step to the entries behind a number, or on where there are none.
pub open spec fn page_step(view: ClientView, round: u8, after: i64) -> DriveStep {
    let page = page_of_outbox(view.outbox, after);
    if page.len() == 0 {
        Ok((DriveStateView::CatchingUp { round }, DriveActionView::CatchUp))
    } else {
        entry_step(round, page, 0)
    }
}

/// What happens next.
pub open spec fn drive_step(view: ClientView, state: DriveStateView, event: DriveEventView) -> DriveStep {
    match (state, event) {
        (DriveStateView::Idle, DriveEventView::Start) => page_step(view, 0, 0),
        (
            DriveStateView::Sent { round, page, at, request },
            DriveEventView::Answer(response),
        ) => Ok(
            (
                DriveStateView::Answered { round, page, at },
                DriveActionView::Complete { id: page[at as int].request_id, request, response },
            ),
        ),
        (DriveStateView::Answered { round, page, at }, DriveEventView::Completed) => if at + 1
            < page.len() {
            entry_step(round, page, at + 1)
        } else {
            page_step(view, round, page[at as int].rowid)
        },
        (DriveStateView::CatchingUp { round }, DriveEventView::CaughtUp) => Ok(
            (DriveStateView::Attempting { round }, DriveActionView::Attempt),
        ),
        (DriveStateView::Attempting { round }, DriveEventView::Attempted(built)) => if built && round
            + 1 < MAX_ROUNDS {
            page_step(view, (round + 1) as u8, 0)
        } else {
            Ok((DriveStateView::Done, DriveActionView::Finish))
        },
        _ => Err(EngineError::Refused(Refusal::UnexpectedResponse)),
    }
}

/// Whether a state stands on an entry.
pub open spec fn drive_in_range(state: DriveStateView) -> bool {
    match state {
        DriveStateView::Sent { page, at, .. } => at < page.len(),
        DriveStateView::Answered { page, at, .. } => at < page.len(),
        _ => true,
    }
}

/// Whether a result is the step that is meant.
pub open spec fn drives(
    result: Result<(DriveState, DriveAction), EngineError>,
    meant: DriveStep,
) -> bool {
    match meant {
        Ok((state, action)) => result matches Ok((next, act)) && next.deep_view() == state
            && act.deep_view() == action,
        Err(error) => result matches Err(got) && got == error,
    }
}

/// The answer in a message, for a client that waits for the answer to a request.
/// News may come in between; nothing else may.
pub open spec fn awaited(id: MessageId, message: RelayMessageView) -> Result<
    Option<ResponseView>,
    EngineError,
> {
    match message {
        RelayMessageView::DeliveryChanged => Ok(None),
        RelayMessageView::Delivery { request_id, response } => if request_id == id {
            Ok(Some(response))
        } else {
            Err(EngineError::Refused(Refusal::UnexpectedResponse))
        },
        _ => Err(EngineError::Refused(Refusal::UnexpectedResponse)),
    }
}

/// The answer in a message, for a client that waits for the answer to a request.
pub fn await_answer(id: MessageId, message: RelayMessage) -> (result: Result<
    Option<Response>,
    EngineError,
>)
    ensures
        match awaited(id, message.deep_view()) {
            Ok(answer) => result matches Ok(got) && got.deep_view() == answer,
            Err(error) => result matches Err(got) && got == error,
        },
{
    match message {
        RelayMessage::DeliveryChanged => Ok(None),
        RelayMessage::Delivery { request_id, response } => {
            if request_id.same(&id) {
                Ok(Some(response))
            } else {
                Err(EngineError::Refused(Refusal::UnexpectedResponse))
            }
        },
        _ => Err(EngineError::Refused(Refusal::UnexpectedResponse)),
    }
}

/// The request of a journaled entry.
pub fn request_of(entry: &OutboxEntry) -> (result: Result<Request, EngineError>)
    ensures
        match entry_request(entry.deep_view()) {
            Ok(request) => result matches Ok(got) && got.deep_view() == request,
            Err(error) => result matches Err(got) && got == error,
        },
{
    match decode_message::<ClientMessage>(entry.message.as_slice()) {
        Err(error) => Err(EngineError::Decode(error)),
        Ok(ClientMessage::Delivery { request_id, request }) => {
            if request_id.same(&entry.request_id) {
                Ok(request)
            } else {
                Err(EngineError::Refused(Refusal::OutboxMismatch))
            }
        },
        Ok(_) => Err(EngineError::Refused(Refusal::OldOutbox)),
    }
}

impl Engine {
    fn drive_entry(&self, round: u8, page: Vec<(i64, OutboxEntry)>, at: usize) -> (result: Result<
        (DriveState, DriveAction),
        EngineError,
    >)
        requires
            at < page@.len(),
        ensures
            drives(result, entry_step(round, rows_of(page@), at as nat)),
    {
        let entry = &page[at].1;
        let id = entry.request_id;
        assert(entry.deep_view() == entry_of(rows_of(page@)[at as int]));
        let request = match request_of(entry) {
            Ok(request) => request,
            Err(error) => return Err(error),
        };
        let sent = request.clone();
        Ok((DriveState::Sent { round, page, at, request }, DriveAction::Send { id, request: sent }))
    }

    fn drive_page(&self, round: u8, after: i64) -> (result: Result<
        (DriveState, DriveAction),
        EngineError,
    >)
        ensures
            drives(result, page_step(self.store@, round, after)),
    {
        let page = self.store.outbox_page(after);
        proof {
            let rows = page_of_outbox(self.store@.outbox, after);
            assert forall|i: int| 0 <= i < rows.len() implies rows_of(page@)[i] == #[trigger] rows[i] by {
                assert(page@[i].1.deep_view() == entry_of(rows[i]));
            }
            assert(rows_of(page@) =~= rows);
        }
        if page.len() == 0 {
            return Ok((DriveState::CatchingUp { round }, DriveAction::CatchUp));
        }
        self.drive_entry(round, page, 0)
    }

    /// What happens next when the client works.
    pub fn drive(&self, state: DriveState, event: DriveEvent) -> (result: Result<
        (DriveState, DriveAction),
        EngineError,
    >)
        requires
            drive_in_range(state.deep_view()),
        ensures
            drives(result, drive_step(self.store@, state.deep_view(), event.deep_view())),
            result matches Ok((next, _)) ==> drive_in_range(next.deep_view()),
    {
        match (state, event) {
            (DriveState::Idle, DriveEvent::Start) => self.drive_page(0, 0),
            (DriveState::Sent { round, page, at, request }, DriveEvent::Answer(response)) => {
                let id = page[at].1.request_id;
                assert(id == rows_of(page@)[at as int].request_id);
                Ok(
                    (
                        DriveState::Answered { round, page, at },
                        DriveAction::Complete { id, request, response },
                    ),
                )
            },
            (DriveState::Answered { round, page, at }, DriveEvent::Completed) => {
                let count = page.len();
                if at + 1 < count {
                    self.drive_entry(round, page, at + 1)
                } else {
                    assert(page@[at as int].0 == rows_of(page@)[at as int].rowid);
                    self.drive_page(round, page[at].0)
                }
            },
            (DriveState::CatchingUp { round }, DriveEvent::CaughtUp) => Ok(
                (DriveState::Attempting { round }, DriveAction::Attempt),
            ),
            (DriveState::Attempting { round }, DriveEvent::Attempted(built)) => {
                if built && round < MAX_ROUNDS - 1 {
                    self.drive_page(round + 1, 0)
                } else {
                    Ok((DriveState::Done, DriveAction::Finish))
                }
            },
            _ => Err(EngineError::Refused(Refusal::UnexpectedResponse)),
        }
    }
}

} // verus!
