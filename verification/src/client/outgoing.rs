//! How what a client wants to do is sent.
use vstd::prelude::*;
use crate::client::attempts::{attempting, planned_attempt, AttemptPlanView};
use crate::client::commands::intending;
use crate::client::drive::{
    awaited, drive_in_range, drive_step, DriveActionView, DriveEventView, DriveStateView,
};
use crate::client::errors::StoreError;
use crate::client::journal::{EngineError, Refusal};
use crate::client::laws::{applied_in_parts, applied_nothing, applied_one, client_in_order};
use crate::client::pages::{next_outbox_page_continues, page_rows_bounds};
use crate::client::reception::{
    budget_is_kept, can_note, journaled_is_noted, message_is_recorded, noted, noting_is_owed,
    position_in, recorded,
};
use crate::client::store::{page_of_outbox, DatabaseSize};
use crate::client::tables::{
    client_all_applied, client_applied, ClientChangeView, ClientView, HistoryRowView,
    IntentRowView, OutboxRowView,
};
use crate::crypto::signature_by;
use crate::delivery::{AppendView, MlsContentType};
use crate::ids::{MessageId, RoomId, UserId};
use crate::messages::{ClientMessage, ClientMessageView, RelayMessageView};
use crate::protocol::{decoded, DecodeMessageError};
use crate::requests::{Request, RequestView, ResponseView};
use crate::sequences::filter_members;
use crate::transcripts::{event_data, welcome_data};
use crate::wire::Wire;

verus! {

/// Whether a row of the journal is sent as a request: its message decodes to the request
/// under the row's own identifier.
pub open spec fn sent_as(row: OutboxRowView, id: MessageId, request: RequestView) -> bool {
    &&& row.request_id == id
    &&& decoded::<ClientMessage>(row.message) == Ok::<ClientMessageView, DecodeMessageError>(
        ClientMessageView::Delivery { request_id: id, request },
    )
}

/// Whether a row is the first of the journal behind a number.
pub open spec fn next_behind(outbox: Seq<OutboxRowView>, after: i64, row: OutboxRowView) -> bool {
    &&& row.rowid > after
    &&& outbox.contains(row)
    &&& forall|i: int|
        0 <= i < outbox.len() && (#[trigger] outbox[i]).rowid > after ==> row.rowid
            <= outbox[i].rowid
}

/// What is done with the journal behind a number: where nothing stands behind it, the
/// client catches up; otherwise the first request behind it is sent, as it stands there.
pub open spec fn goes_on_behind(
    view: ClientView,
    round: u8,
    after: i64,
    next: DriveStateView,
    action: DriveActionView,
) -> bool {
    match action {
        DriveActionView::CatchUp => next == DriveStateView::CatchingUp { round } && forall|i: int|
            0 <= i < view.outbox.len() ==> (#[trigger] view.outbox[i]).rowid <= after,
        DriveActionView::Send { id, request } => {
            &&& next matches DriveStateView::Sent { round: of, page, at, request: sent }
            &&& of == round
            &&& at == 0
            &&& sent == request
            &&& 0 < page.len()
            &&& sent_as(page[0], id, request)
            &&& next_behind(view.outbox, after, page[0])
            &&& consecutive(view.outbox, after, page)
        },
        _ => false,
    }
}

/// Whether a page holds the first rows of the journal behind a number, none left out.
pub open spec fn consecutive(
    outbox: Seq<OutboxRowView>,
    after: i64,
    page: Seq<OutboxRowView>,
) -> bool {
    page.is_prefix_of(outbox.filter(|row: OutboxRowView| row.rowid > after))
}

proof fn page_goes_on(view: ClientView, round: u8, after: i64)
    requires
        client_in_order(view),
        crate::client::drive::page_step(view, round, after) is Ok,
    ensures
        ({
            let (next, action) = crate::client::drive::page_step(view, round, after)->Ok_0;
            goes_on_behind(view, round, after, next, action)
        }),
{
    let page = page_of_outbox(view.outbox, after);
    let wanted = |row: OutboxRowView| row.rowid > after;
    let rows = view.outbox.filter(wanted);
    assert(wanted =~= crate::client::store::behind(after));
    next_outbox_page_continues(view, after);
    filter_members(view.outbox, wanted);
    if page.len() == 0 {
        assert forall|i: int| 0 <= i < view.outbox.len() implies (
        #[trigger] view.outbox[i]).rowid <= after by {
            if view.outbox[i].rowid > after {
                assert(wanted(view.outbox[i]));
                assert(rows.contains(view.outbox[i]));
            }
        }
    } else {
        assert(page == rows.take(page.len() as int));
        page_rows_bounds(rows, 0);
        assert(page[0] == rows[0]);
        assert(page.is_prefix_of(rows));
        rows_in_order(view.outbox, wanted);
        assert forall|i: int|
            0 <= i < view.outbox.len() && (#[trigger] view.outbox[i]).rowid > after implies page[0].rowid
            <= view.outbox[i].rowid by {
            assert(wanted(view.outbox[i]));
            let k = rows.index_of(view.outbox[i]);
            if k > 0 {
                assert(rows[0].rowid < rows[k].rowid);
            }
        }
        assert(wanted(rows[0]));
    }
}

proof fn rows_in_order(outbox: Seq<OutboxRowView>, wanted: spec_fn(OutboxRowView) -> bool)
    requires
        forall|i: int, j: int|
            0 <= i < j < outbox.len() ==> (#[trigger] outbox[i]).rowid < (
            #[trigger] outbox[j]).rowid,
    ensures
        forall|i: int, j: int|
            0 <= i < j < outbox.filter(wanted).len() ==> (#[trigger] outbox.filter(wanted)[i]).rowid
                < (#[trigger] outbox.filter(wanted)[j]).rowid,
    decreases outbox.len(),
{
    reveal(Seq::filter);
    if outbox.len() > 0 {
        let fewer = outbox.drop_last();
        assert forall|i: int, j: int| 0 <= i < j < fewer.len() implies (#[trigger] fewer[i]).rowid
            < (#[trigger] fewer[j]).rowid by {
            assert(outbox[i].rowid < outbox[j].rowid);
        }
        rows_in_order(fewer, wanted);
        filter_members(fewer, wanted);
        let before = fewer.filter(wanted);
        let all = outbox.filter(wanted);
        assert forall|i: int| 0 <= i < before.len() implies (#[trigger] before[i]).rowid
            < outbox.last().rowid by {
            let k = fewer.index_of(before[i]);
            assert(fewer.contains(before[i]));
            assert(outbox[k].rowid < outbox[outbox.len() - 1].rowid);
        }
        assert(all == before || all == before.push(outbox.last()));
        assert forall|i: int, j: int| 0 <= i < j < all.len() implies (#[trigger] all[i]).rowid < (
        #[trigger] all[j]).rowid by {
            assert(all[i] == before[i]);
            if j < before.len() {
                assert(all[j] == before[j]);
                assert(before[i].rowid < before[j].rowid);
            }
        }
    }
}

/// One turn of sending what the journal holds: it starts at the front; an answer completes
/// the request that was sent, under its identifier; behind a completed request comes the
/// next one of the page, and behind a page the journal is read on where the page ended;
/// where nothing is left the client catches up, and then attempts what it wants. Where
/// that made new requests, the journal is read again from the front, four times at most.
pub proof fn sending_the_journal(view: ClientView, state: DriveStateView, event: DriveEventView)
    requires
        client_in_order(view),
        drive_in_range(state),
        drive_step(view, state, event) is Ok,
    ensures
        ({
            let (next, action) = drive_step(view, state, event)->Ok_0;
            match (state, event) {
                (DriveStateView::Idle, DriveEventView::Start) => goes_on_behind(
                    view,
                    0,
                    0,
                    next,
                    action,
                ),
                (
                    DriveStateView::Sent { round, page, at, request },
                    DriveEventView::Answer(response),
                ) => next == DriveStateView::Answered { round, page, at } && action == (
                DriveActionView::Complete {
                    id: page[at as int].request_id,
                    request,
                    response,
                }),
                (DriveStateView::Answered { round, page, at }, DriveEventView::Completed) => if at
                    + 1 < page.len() {
                    action matches DriveActionView::Send { id, request } && sent_as(
                        page[at as int + 1],
                        id,
                        request,
                    ) && next == (DriveStateView::Sent { round, page, at: at + 1, request })
                } else {
                    goes_on_behind(view, round, page[at as int].rowid, next, action)
                },
                (DriveStateView::CatchingUp { round }, DriveEventView::CaughtUp) => next
                    == DriveStateView::Attempting { round } && action == DriveActionView::Attempt,
                (
                    DriveStateView::Attempting { round },
                    DriveEventView::Attempted(built),
                ) => if built && round < 3 {
                    goes_on_behind(view, (round + 1) as u8, 0, next, action)
                } else {
                    next == DriveStateView::Done && action == DriveActionView::Finish
                },
                _ => false,
            }
        }),
{
    match (state, event) {
        (DriveStateView::Idle, DriveEventView::Start) => {
            page_goes_on(view, 0, 0);
        },
        (DriveStateView::Answered { round, page, at }, DriveEventView::Completed) => {
            if at + 1 >= page.len() {
                page_goes_on(view, round, page[at as int].rowid);
            }
        },
        (DriveStateView::Attempting { round }, DriveEventView::Attempted(built)) => {
            if built && round < 3 {
                page_goes_on(view, (round + 1) as u8, 0);
            }
        },
        _ => {},
    }
}

/// While an answer is awaited, news are passed over, the answer under the identifier of
/// the request is taken as it is, and everything else is refused.
pub proof fn awaiting_an_answer(id: MessageId, message: RelayMessageView)
    ensures
        match awaited(id, message) {
            Ok(None) => message == RelayMessageView::DeliveryChanged,
            Ok(Some(response)) => message == (RelayMessageView::Delivery {
                request_id: id,
                response,
            }),
            Err(error) => error == EngineError::Refused(Refusal::UnexpectedResponse) && message
                != RelayMessageView::DeliveryChanged && !(
            message matches RelayMessageView::Delivery { request_id, .. } && request_id == id),
        },
{
}

/// Wanting something in a room: within the budget, where the room has its group and
/// nothing is wanted there yet, the wish stands there, with nothing done about it, and
/// nothing else changes. A wish to say something is as large as what is to be said,
/// every other as large as an identifier.
pub proof fn wanting_something(
    view: ClientView,
    budget: u64,
    room: RoomId,
    target: Option<UserId>,
    plaintext: Option<Seq<u8>>,
    has_group: bool,
    id: MessageId,
    size: DatabaseSize,
)
    requires
        budget < u64::MAX,
    ensures
        ({
            let bytes = match plaintext {
                Some(text) => text.len(),
                None => 16,
            };
            let space = size.page_count * size.page_size + 3 * bytes + 65536 <= budget;
            let used = exists|other: RoomId| #[trigger]
                view.intents.contains_key(other) && view.intents[other].id == id;
            match intending(view, budget, room, target, plaintext, has_group, id, size) {
                Ok(changes) => {
                    &&& space
                    &&& has_group
                    &&& !view.intents.contains_key(room)
                    &&& !used
                    &&& client_all_applied(view, changes) == (ClientView {
                        intents: view.intents.insert(
                            room,
                            IntentRowView { id, target, plaintext, package: None, attempt: None },
                        ),
                        ..view
                    })
                },
                Err(EngineError::Store(StoreError::Quota)) => !space,
                Err(EngineError::Refused(refusal)) => space && !has_group && refusal
                    == Refusal::NoGroup,
                Err(_) => space && has_group && (view.intents.contains_key(room) || used),
            }
        }),
{
    let bytes = match plaintext {
        Some(text) => text.len(),
        None => 16,
    };
    budget_is_kept(size, bytes, budget);
    applied_one(view, ClientChangeView::Intent { room, id, target, plaintext });
}

/// Whether something wanted in a room can be attempted: it is not under way, the room has
/// its group, and no event of the room waits behind where the client stands.
pub open spec fn can_attempt(view: ClientView, room: RoomId, has_group: bool) -> bool {
    &&& view.intents.contains_key(room)
    &&& view.intents[room].attempt is None
    &&& has_group
    &&& !exists|id: MessageId| #[trigger]
        view.inbox.contains_key(id) && view.inbox[id].room == room && view.inbox[id].sequence
            > position_in(view, room)
}

/// What is attempted in a room: nothing where it cannot be; a package is asked for where
/// somebody is to be added and none is there yet; with one they are added; otherwise
/// what is to be said is sent. What is appended goes where the client stands, and is
/// bound to the room, the attempt and that position; and not while a commit is under
/// way.
pub proof fn planning_an_attempt(
    view: ClientView,
    room: RoomId,
    id: MessageId,
    has_group: bool,
    committing: bool,
)
    ensures
        ({
            let ready = can_attempt(view, room, has_group);
            let wish = view.intents[room];
            let position = position_in(view, room);
            match planned_attempt(view, room, id, has_group, committing) {
                Ok(AttemptPlanView::Skip) => !ready,
                Ok(AttemptPlanView::Reserve { recipient }) => ready && wish.target == Some(
                    recipient,
                ) && wish.package is None,
                Ok(AttemptPlanView::Add { recipient, package, parent, authenticated_data }) => ready
                    && !committing && wish.target == Some(recipient) && wish.package == Some(
                    package,
                ) && parent == position && authenticated_data == event_data(room, id, position),
                Ok(AttemptPlanView::Send { plaintext, parent, authenticated_data }) => ready
                    && !committing && wish.target is None && wish.package is None && wish.plaintext
                    == Some(plaintext) && parent == position && authenticated_data == event_data(
                    room,
                    id,
                    position,
                ),
                Err(EngineError::Refused(Refusal::UnresolvedCommit)) => ready && committing && (
                wish.package is Some || (wish.target is None && wish.plaintext is Some)),
                Err(EngineError::Refused(Refusal::AddWithoutTarget)) => ready && !committing
                    && wish.target is None && wish.package is Some,
                Err(EngineError::Refused(Refusal::SendWithoutPlaintext)) => ready && wish.target
                    is None && wish.package is None && wish.plaintext is None,
                Err(error) => ready && position > 0x7fff_ffff_ffff_ffff && error
                    == EngineError::Store(StoreError::Database),
            }
        }),
{
}

/// Whether a client is what an attempt leaves: the request is noted under the identifier
/// of the attempt, the wish of the room has that attempt, and nothing else changed but
/// perhaps the history.
pub open spec fn attempted_by(
    view: ClientView,
    after: ClientView,
    room: RoomId,
    id: MessageId,
    request: RequestView,
) -> bool {
    &&& after == (ClientView {
        outbox: after.outbox,
        history: after.history,
        intents: if view.intents.contains_key(room) {
            view.intents.insert(
                room,
                IntentRowView { attempt: Some(id), ..view.intents[room] },
            )
        } else {
            view.intents
        },
        ..view
    })
    &&& noted(view.outbox, after.outbox, id, request)
}

proof fn request_is_attempted(
    view: ClientView,
    budget: u64,
    room: RoomId,
    id: MessageId,
    request: RequestView,
    size: DatabaseSize,
)
    requires
        crate::client::attempts::attempt_request(view, budget, room, id, request, size) is Ok,
    ensures
        ({
            let after = client_all_applied(
                view,
                crate::client::attempts::attempt_request(
                    view,
                    budget,
                    room,
                    id,
                    request,
                    size,
                )->Ok_0,
            );
            &&& attempted_by(view, after, room, id, request)
            &&& after.history == view.history
        }),
{
    let journal = crate::client::journal::journaled(view.outbox, id, request)->Ok_0;
    let change = ClientChangeView::IntentAttempt { room, attempt: id };
    journaled_is_noted(view, id, request);
    applied_in_parts(view, journal, seq![change]);
    applied_one(client_all_applied(view, journal), change);
}

/// Whether an operation is what adds a member: the commit that the group made, behind the
/// position where the client stands, with the welcome that it made for the recipient,
/// signed for that recipient over the room, the event, its position and the welcome.
pub open spec fn adds(
    operation: AppendView,
    room: RoomId,
    id: MessageId,
    secret: Seq<u8>,
    recipient: UserId,
    parent: u64,
    epoch: u64,
    body: Seq<u8>,
    welcome: Seq<u8>,
) -> bool {
    &&& operation.room == room
    &&& operation.parent == parent
    &&& operation.epoch == epoch
    &&& operation.content_type == MlsContentType::Commit
    &&& operation.body == body
    &&& operation.welcome matches Some(attachment) && attachment.recipient == recipient
        && attachment.body == welcome && attachment.signature
        == crate::ids::Ed25519SignatureBytes::of(
        signature_by(
            secret,
            welcome_data(recipient, room, id, (parent + 1) as u64, welcome),
        ),
    )
}

/// An attempt that is made: the request that its plan asks for is noted, and where it says
/// something, that stands in the client's own history, at the position it is sent for.
pub proof fn making_an_attempt(
    view: ClientView,
    budget: u64,
    user: UserId,
    secret: Seq<u8>,
    room: RoomId,
    id: MessageId,
    plan: AttemptPlanView,
    epoch: u64,
    body: Seq<u8>,
    welcome: Seq<u8>,
    size: DatabaseSize,
)
    requires
        client_in_order(view),
        attempting(
            view,
            budget,
            user,
            secret,
            room,
            id,
            plan,
            epoch,
            body,
            welcome,
            size,
        ) is Ok,
    ensures
        ({
            let after = client_all_applied(
                view,
                attempting(
                    view,
                    budget,
                    user,
                    secret,
                    room,
                    id,
                    plan,
                    epoch,
                    body,
                    welcome,
                    size,
                )->Ok_0,
            );
            match plan {
                AttemptPlanView::Skip => after == view,
                AttemptPlanView::Reserve { recipient } => attempted_by(
                    view,
                    after,
                    room,
                    id,
                    RequestView::ReserveKeyPackage { recipient },
                ) && after.history == view.history,
                AttemptPlanView::Add { recipient, parent, .. } => exists|operation: AppendView|
                    #[trigger]
                    adds(
                        operation,
                        room,
                        id,
                        secret,
                        recipient,
                        parent,
                        epoch,
                        body,
                        welcome,
                    ) && attempted_by(
                        view,
                        after,
                        room,
                        id,
                        RequestView::AppendRoomOperation(operation),
                    ) && after.history == view.history,
                AttemptPlanView::Send { plaintext, parent, .. } => attempted_by(
                    view,
                    after,
                    room,
                    id,
                    RequestView::AppendRoomOperation(
                        AppendView {
                            room,
                            parent,
                            epoch,
                            content_type: MlsContentType::Application,
                            body,
                            welcome: None,
                        },
                    ),
                ) && recorded(
                    view.history,
                    after.history,
                    HistoryRowView {
                        message_id: id,
                        room,
                        sequence: (parent + 1) as u64,
                        author: user,
                        plaintext,
                    },
                ),
            }
        }),
{
    applied_nothing(view);
    match plan {
        AttemptPlanView::Skip => {},
        AttemptPlanView::Reserve { recipient } => {
            request_is_attempted(
                view,
                budget,
                room,
                id,
                RequestView::ReserveKeyPackage { recipient },
                size,
            );
        },
        AttemptPlanView::Add { recipient, parent, .. } => {
            let operation = crate::client::attempts::adding(
                room,
                id,
                secret,
                recipient,
                parent,
                epoch,
                body,
                welcome,
            );
            assert(adds(operation, room, id, secret, recipient, parent, epoch, body, welcome));
            request_is_attempted(
                view,
                budget,
                room,
                id,
                RequestView::AppendRoomOperation(operation),
                size,
            );
        },
        AttemptPlanView::Send { plaintext, parent, .. } => {
            let request = RequestView::AppendRoomOperation(
                crate::client::attempts::sending(room, parent, epoch, body),
            );
            let row = HistoryRowView {
                message_id: id,
                room,
                sequence: (parent + 1) as u64,
                author: user,
                plaintext,
            };
            let change = ClientChangeView::History {
                message_id: row.message_id,
                room: row.room,
                sequence: row.sequence,
                author: row.author,
                plaintext: row.plaintext,
            };
            let middle = client_applied(view, change);
            let rest = crate::client::attempts::attempt_request(
                view,
                budget,
                room,
                id,
                request,
                size,
            )->Ok_0;
            applied_one(view, change);
            applied_in_parts(view, seq![change], rest);
            message_is_recorded(view, row);
            assert(crate::client::attempts::attempt_request(
                middle,
                budget,
                room,
                id,
                request,
                size,
            )->Ok_0 == rest);
            request_is_attempted(middle, budget, room, id, request, size);
        },
    }
}

/// Whether every message of the journal is that of a request under its own identifier.
#[verifier::opaque]
pub open spec fn all_requests(outbox: Seq<OutboxRowView>) -> bool {
    forall|i: int| 0 <= i < outbox.len() ==> is_request(#[trigger] outbox[i])
}

/// Whether the message of a row is that of a request under the row's own identifier.
#[verifier::opaque]
pub open spec fn is_request(row: OutboxRowView) -> bool {
    exists|request: RequestView| #[trigger] sent_as(row, row.request_id, request)
}

/// The next request of the journal is sent wherever its message is that of a request under
/// its own identifier; and with an empty journal the client catches up.
pub proof fn sending_is_owed(view: ClientView, round: u8, page: Seq<OutboxRowView>, at: nat)
    requires
        client_in_order(view),
        at < page.len(),
        at + 1 < page.len() ==> is_request(page[at as int + 1]),
        all_requests(view.outbox),
    ensures
        drive_step(view, DriveStateView::Idle, DriveEventView::Start) is Ok,
        drive_step(
            view,
            DriveStateView::Answered { round, page, at },
            DriveEventView::Completed,
        ) is Ok,
        drive_step(view, DriveStateView::Attempting { round }, DriveEventView::Attempted(true))
            is Ok,
        drive_step(view, DriveStateView::Attempting { round }, DriveEventView::Attempted(false))
            is Ok,
        drive_step(view, DriveStateView::CatchingUp { round }, DriveEventView::CaughtUp) is Ok,
        forall|request: RequestView, response: ResponseView| #[trigger]
            drive_step(
                view,
                DriveStateView::Sent { round, page, at, request },
                DriveEventView::Answer(response),
            ) is Ok,
{
    page_is_owed(view, 0, 0);
    page_is_owed(view, round, page[at as int].rowid);
    if round < 3 {
        page_is_owed(view, (round + 1) as u8, 0);
    }
    if at + 1 < page.len() {
        entry_is_owed(round, page, at + 1);
    }
}

proof fn entry_is_owed(round: u8, page: Seq<OutboxRowView>, at: nat)
    requires
        is_request(page[at as int]),
    ensures
        crate::client::drive::entry_step(round, page, at) is Ok,
{
    reveal(is_request);
    let row = page[at as int];
    let request = choose|request: RequestView| #[trigger] sent_as(row, row.request_id, request);
    assert(sent_as(row, row.request_id, request));
}

proof fn page_is_owed(view: ClientView, round: u8, after: i64)
    requires
        client_in_order(view),
        all_requests(view.outbox),
    ensures
        crate::client::drive::page_step(view, round, after) is Ok,
{
    let page = page_of_outbox(view.outbox, after);
    let wanted = crate::client::store::behind(after);
    let rows = view.outbox.filter(wanted);
    next_outbox_page_continues(view, after);
    page_rows_bounds(rows, 0);
    filter_members(view.outbox, wanted);
    if page.len() > 0 {
        assert(page[0] == rows[0]);
        assert(view.outbox.contains(rows[0]));
        let k = view.outbox.index_of(rows[0]);
        assert(is_request(view.outbox[k])) by {
            reveal(all_requests);
        }
        entry_is_owed(round, page, 0);
    }
}

/// An attempt is made wherever its request can be noted within the budget, and what it says
/// has a position that can be stored.
pub proof fn attempt_is_owed(
    view: ClientView,
    budget: u64,
    room: RoomId,
    id: MessageId,
    request: RequestView,
    size: DatabaseSize,
)
    requires
        client_in_order(view),
        budget < u64::MAX,
        can_note(view, id, request),
        request !is Acknowledge,
        Request::encoded(request).len() <= 786432,
        size.page_count * size.page_size + 3 * Request::encoded(request).len() + 65536 <= budget,
    ensures
        crate::client::attempts::attempt_request(view, budget, room, id, request, size) is Ok,
{
    noting_is_owed(view, id, request);
    budget_is_kept(size, Request::encoded(request).len(), budget);
}

/// What is planned is attempted wherever the request for it is: one for a package, one to
/// append the commit with its welcome, or one to append what is said at a position that
/// can be stored.
pub proof fn planned_attempt_is_owed(
    view: ClientView,
    budget: u64,
    user: UserId,
    secret: Seq<u8>,
    room: RoomId,
    id: MessageId,
    plan: AttemptPlanView,
    epoch: u64,
    body: Seq<u8>,
    welcome: Seq<u8>,
    size: DatabaseSize,
    request: RequestView,
)
    requires
        crate::client::attempts::attempt_request(view, budget, room, id, request, size) is Ok,
        match plan {
            AttemptPlanView::Skip => true,
            AttemptPlanView::Reserve { recipient } => request == (RequestView::ReserveKeyPackage {
                recipient,
            }),
            AttemptPlanView::Add { recipient, parent, .. } => {
                request matches RequestView::AppendRoomOperation(operation) && adds(
                    operation,
                    room,
                    id,
                    secret,
                    recipient,
                    parent,
                    epoch,
                    body,
                    welcome,
                )
            },
            AttemptPlanView::Send { parent, .. } => parent < 0x7fff_ffff_ffff_ffff && request
                == RequestView::AppendRoomOperation(
                AppendView {
                    room,
                    parent,
                    epoch,
                    content_type: MlsContentType::Application,
                    body,
                    welcome: None,
                },
            ),
        },
    ensures
        attempting(
            view,
            budget,
            user,
            secret,
            room,
            id,
            plan,
            epoch,
            body,
            welcome,
            size,
        ) is Ok,
{
    if let AttemptPlanView::Add { recipient, parent, .. } = plan {
        assert(request == RequestView::AppendRoomOperation(
            crate::client::attempts::adding(
                room,
                id,
                secret,
                recipient,
                parent,
                epoch,
                body,
                welcome,
            ),
        ));
    }
}

} // verus!
