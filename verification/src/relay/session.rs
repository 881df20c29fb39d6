//! What a relay does with the messages of a client that is in, and how it is
//! started.
use vstd::prelude::*;
use crate::ids::MessageId;
use crate::messages::{
    ClientMessage, ClientMessageKind, ClientMessageView, ProtocolError, RelayMessage,
    RelayMessageView,
};
use crate::relay::metrics::Metric;
use crate::relay::tables::{Defect, StorageError};
use crate::requests::{Rejection, Request, RequestView, Response, ResponseView};
use crate::text::text_is;

verus! {

/// What to do with a message of a client that is in.
#[derive(Debug)]
pub enum SessionAction {
    /// Send this, and count what is to be counted.
    Reply(RelayMessage, Option<Metric>),
    /// Deliver the request.
    Deliver(MessageId, Request),
}

/// What a [`SessionAction`] holds.
#[verifier::ext_equal]
pub enum SessionActionView {
    Reply(RelayMessageView, Option<Metric>),
    Deliver(MessageId, RequestView),
}

impl DeepView for SessionAction {
    type V = SessionActionView;

    open spec fn deep_view(&self) -> SessionActionView {
        match self {
            SessionAction::Reply(message, metric) => SessionActionView::Reply(
                message.deep_view(),
                *metric,
            ),
            SessionAction::Deliver(id, request) => SessionActionView::Deliver(
                *id,
                request.deep_view(),
            ),
        }
    }
}

/// An answer to a request.
pub open spec fn answer(request_id: MessageId, response: ResponseView) -> RelayMessageView {
    RelayMessageView::Delivery { request_id, response }
}

/// The action on a message: a request is delivered if the client is within its
/// rate, and everything else is out of turn.
pub open spec fn session_action(message: ClientMessageView, within_rate: bool) -> SessionActionView {
    match message {
        ClientMessageView::Delivery { request_id, request } => if within_rate {
            SessionActionView::Deliver(request_id, request)
        } else {
            SessionActionView::Reply(
                answer(request_id, ResponseView::Rejected(Rejection::Overloaded)),
                Some(Metric::QueuePressure),
            )
        },
        _ => SessionActionView::Reply(
            RelayMessageView::ProtocolError {
                request_id: None,
                error: ProtocolError::UnexpectedMessage {
                    expected: ClientMessageKind::Delivery,
                    received: ClientMessage::kind_of(message),
                },
            },
            None,
        ),
    }
}

/// Decides about a message.
pub fn on_message(message: ClientMessage, within_rate: bool) -> (action: SessionAction)
    ensures
        action.deep_view() == session_action(message.deep_view(), within_rate),
{
    let received = message.kind();
    match message {
        ClientMessage::Delivery { request_id, request } => if within_rate {
            SessionAction::Deliver(request_id, request)
        } else {
            SessionAction::Reply(
                RelayMessage::Delivery {
                    request_id,
                    response: Response::Rejected(Rejection::Overloaded),
                },
                Some(Metric::QueuePressure),
            )
        },
        _ => SessionAction::Reply(
            RelayMessage::ProtocolError {
                request_id: None,
                error: ProtocolError::UnexpectedMessage {
                    expected: ClientMessageKind::Delivery,
                    received,
                },
            },
            None,
        ),
    }
}

/// What came of handing a request to the database.
pub enum Handed {
    /// It was answered, or failed.
    Done(Result<Response, StorageError>),
    /// The database took nothing more, or gave no result.
    Unavailable,
}

/// What the client is answered.
pub open spec fn handed_response(handed: Handed) -> ResponseView {
    match handed {
        Handed::Done(Ok(response)) => response.deep_view(),
        Handed::Done(Err(_)) => ResponseView::Rejected(Rejection::Internal),
        Handed::Unavailable => ResponseView::Rejected(Rejection::Overloaded),
    }
}

/// An answer, whether others have to be told of news, and what is counted.
pub struct Settlement {
    pub message: RelayMessage,
    pub news: bool,
    pub metric: Option<Metric>,
}

/// Whether a request is one that recovery depends on.
pub fn is_recovery(request: &Request) -> (yes: bool)
    ensures
        yes == crate::relay::deliver::reads_only(request.deep_view()),
{
    matches!(
        request,
        Request::FetchRoomEvents { .. } | Request::FetchWelcomes { .. } | Request::SyncIndex { .. }
    )
}

/// Answers a request: a failure is an internal error to the client, an accepted
/// operation is news to everybody who is in.
pub fn on_delivered(request_id: MessageId, recovery: bool, handed: Handed) -> (settled: Settlement)
    ensures
        settled.message.deep_view() == answer(request_id, handed_response(handed)),
        settled.news == (handed_response(handed) is AppendAccepted),
        settled.metric == (if recovery && handed matches Handed::Done(Err(_)) {
            Some(Metric::RecoveryFailure)
        } else {
            None
        }),
{
    let (response, metric) = match handed {
        Handed::Done(Ok(response)) => (response, None),
        Handed::Done(Err(_)) => (
            Response::Rejected(Rejection::Internal),
            if recovery {
                Some(Metric::RecoveryFailure)
            } else {
                None
            },
        ),
        Handed::Unavailable => (Response::Rejected(Rejection::Overloaded), None),
    };
    let news = matches!(response, Response::AppendAccepted { .. });
    Settlement { message: RelayMessage::Delivery { request_id, response }, news, metric }
}

/// How the relay was called.
#[derive(Debug, PartialEq, Eq)]
pub enum RelayCommand {
    Help,
    Serve,
    /// Issue a token for a user whose key has a fingerprint.
    Enroll(String, String),
    /// The arguments make no sense.
    Usage,
}

/// Reads the arguments.
pub fn relay_command(arguments: &Vec<String>) -> (command: RelayCommand)
    ensures
        match command {
            RelayCommand::Help => arguments@.len() == 1 && arguments@[0]@ == "--help"@,
            RelayCommand::Serve => arguments@.len() == 0,
            RelayCommand::Enroll(user, fingerprint) => arguments@.len() == 3 && arguments@[0]@
                == "--enroll"@ && user@ == arguments@[1]@ && fingerprint@ == arguments@[2]@,
            RelayCommand::Usage => arguments@.len() > 0 && !(arguments@.len() == 1
                && arguments@[0]@ == "--help"@) && !(arguments@.len() == 3 && arguments@[0]@
                == "--enroll"@),
        },
{
    if arguments.len() == 0 {
        return RelayCommand::Serve;
    }
    if arguments.len() == 1 && text_is(&arguments[0], "--help") {
        return RelayCommand::Help;
    }
    if arguments.len() == 3 && text_is(&arguments[0], "--enroll") {
        return RelayCommand::Enroll(arguments[1].clone(), arguments[2].clone());
    }
    RelayCommand::Usage
}

/// The version of the database.
pub const SCHEMA_VERSION: i64 = 9;

/// What marks a database as a relay's.
pub const APPLICATION_ID: i64 = 0x4752523a;

/// What to do with a database that is opened.
#[derive(Clone, Copy, Debug, PartialEq, Eq, Structural)]
pub enum SchemaStep {
    /// It is in order.
    Keep,
    /// It is empty: the tables are to be made.
    Create,
}

/// A database is used as it is, or made from nothing; anything else is left
/// alone.
pub fn schema_step(version: i64, application: i64, objects: i64) -> (step: Result<
    SchemaStep,
    StorageError,
>)
    ensures
        step == (if version == SCHEMA_VERSION && application == APPLICATION_ID {
            Ok::<SchemaStep, StorageError>(SchemaStep::Keep)
        } else if version == 0 && application == 0 && objects == 0 {
            Ok(SchemaStep::Create)
        } else {
            Err(StorageError::InvalidStoredData(Defect::Schema))
        }),
{
    if version == SCHEMA_VERSION && application == APPLICATION_ID {
        return Ok(SchemaStep::Keep);
    }
    if version != 0 || application != 0 || objects != 0 {
        return Err(StorageError::InvalidStoredData(Defect::Schema));
    }
    Ok(SchemaStep::Create)
}

} // verus!
