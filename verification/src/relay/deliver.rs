//! Delivery: a request is answered once, and every retry gets that answer.
use vstd::prelude::*;
use crate::bytes::same_bytes;
use crate::delivery::MAX_PAYLOAD;
use crate::ids::{MessageId, RoomId, UserId};
use crate::protocol::{decode_message, decoded, encode_message};
use crate::relay::limits::{admission, charge, charge_for, StorageFacts, StorageLimits};
use crate::relay::metrics::Metric;
use crate::relay::reads::{index_page, receipt, room_page, welcome_page};
use crate::relay::state::RelayTables;
use crate::relay::tables::{
    charged, Change, ChangeView, Defect, RelayView, StorageError, MAX_NUMBER,
};
use crate::relay::writes::{
    creation, extension, granting, is_execution, publication, reservation, Execution,
};
use crate::requests::{Rejection, Request, RequestView, Response, ResponseView};
use crate::transcripts::{acknowledgement_id, payload_hash, receipt_id, request_hash};
use crate::wire::Wire;

verus! {

/// What a request does on its own.
pub open spec fn execution(
    view: RelayView,
    user: UserId,
    id: MessageId,
    request: RequestView,
    now: i64,
    fresh: Option<RoomId>,
) -> Execution {
    match request {
        RequestView::CreateRoom { name } => creation(view, user, name, fresh),
        RequestView::PublishKeyPackages { packages } => publication(view, user, packages),
        RequestView::SetFetchGrant { requester, allowed } => granting(user, requester, allowed),
        RequestView::ReserveKeyPackage { recipient } => reservation(view, user, recipient, now),
        RequestView::AppendRoomOperation(operation) => extension(view, user, id, operation),
        RequestView::FetchRoomEvents { room, after_sequence } => room_page(
            view,
            user,
            room,
            after_sequence,
        ),
        RequestView::SyncIndex { after_room } => index_page(view, user, after_room),
        RequestView::FetchWelcomes { after_cursor } => welcome_page(view, user, after_cursor),
        RequestView::Acknowledge { events, welcomes } => receipt(view, user, events, welcomes),
    }
}

/// Whether a request only reads.
pub open spec fn reads_only(request: RequestView) -> bool {
    request is FetchRoomEvents || request is FetchWelcomes || request is SyncIndex
}

/// Whether an answer may differ on a later try, so that it is not kept.
pub open spec fn passing(response: ResponseView) -> bool {
    response matches ResponseView::Rejected(reason) && (reason == Rejection::Quota || reason
        == Rejection::Overloaded || reason == Rejection::Internal)
}

/// An answer, the changes that come with it, and what is counted.
#[verifier::ext_equal]
pub struct OutcomeView {
    pub response: ResponseView,
    pub changes: Seq<ChangeView>,
    pub metric: Option<Metric>,
}

/// An answer without changes.
pub open spec fn quiet(response: ResponseView) -> OutcomeView {
    OutcomeView { response, changes: Seq::empty(), metric: None }
}

/// What is counted of an answer.
pub open spec fn metric_of(response: ResponseView) -> Option<Metric> {
    match response {
        ResponseView::HeadConflict { .. } => Some(Metric::CommitConflict),
        ResponseView::Rejected(reason) => if reason == Rejection::Quota {
            Some(Metric::QuotaRejection)
        } else {
            None
        },
        _ => None,
    }
}

/// The changes with the charges for them.
pub open spec fn with_charges(
    changes: Seq<ChangeView>,
    user: UserId,
    request: RequestView,
) -> Seq<ChangeView> {
    let bytes = charge(Request::encoded(request).len()) as u64;
    let sender = changes.push(ChangeView::SenderUsage { user, bytes });
    match request {
        RequestView::Acknowledge { .. } => changes,
        RequestView::AppendRoomOperation(operation) => sender.push(
            ChangeView::RoomUsage { room: operation.room, bytes },
        ),
        _ => sender,
    }
}

/// Whether the charges stay within what a count of bytes may reach.
pub open spec fn charges_fit(view: RelayView, user: UserId, request: RequestView) -> bool {
    let bytes = charge(Request::encoded(request).len());
    match request {
        RequestView::Acknowledge { .. } => true,
        RequestView::AppendRoomOperation(operation) => charged(view.sender_usage, user) + bytes
            <= MAX_NUMBER && charged(view.room_usage, operation.room) + bytes <= MAX_NUMBER,
        _ => charged(view.sender_usage, user) + bytes <= MAX_NUMBER,
    }
}

/// What a request does that was let in: a kept answer comes with its charges and
/// its row, a receipt is kept only where it holds.
pub open spec fn settled(
    view: RelayView,
    user: UserId,
    id: MessageId,
    request: RequestView,
    now: i64,
    fresh: Option<RoomId>,
) -> Result<OutcomeView, StorageError> {
    match execution(view, user, id, request, now, fresh) {
        Err(error) => Err(error),
        Ok((response, changes)) => {
            let metric = metric_of(response);
            if request is Acknowledge && response !is Acknowledged {
                Ok(OutcomeView { response, changes: Seq::empty(), metric })
            } else if reads_only(request) || passing(response) {
                Ok(OutcomeView { response, changes, metric })
            } else if !charges_fit(view, user, request) {
                Err(StorageError::Database)
            } else if Response::encoded(response).len() > MAX_PAYLOAD {
                Err(StorageError::InvalidStoredData(Defect::DeliveryRecord))
            } else {
                Ok(
                    OutcomeView {
                        response,
                        changes: with_charges(changes, user, request).push(
                            ChangeView::Request {
                                user,
                                id,
                                hash: request_hash(request),
                                response: Response::encoded(response),
                            },
                        ),
                        metric,
                    },
                )
            }
        },
    }
}

/// Whether a receipt confirms one thing under the one identifier it can have.
pub open spec fn receipt_well_formed(user: UserId, id: MessageId, request: RequestView) -> bool {
    request matches RequestView::Acknowledge { events, welcomes } ==> events.len() + welcomes.len()
        == 1 && id == receipt_id(user, events, welcomes)
}

/// What a request is answered, and what comes with the answer.
pub open spec fn outcome(
    view: RelayView,
    limits: StorageLimits,
    facts: StorageFacts,
    user: UserId,
    id: MessageId,
    request: RequestView,
    now: i64,
    fresh: Option<RoomId>,
) -> Result<OutcomeView, StorageError> {
    if Request::encoded(request).len() > MAX_PAYLOAD {
        Err(StorageError::InvalidStoredData(Defect::DeliveryRecord))
    } else if view.requests.contains_key((user, id)) {
        let saved = view.requests[(user, id)];
        if saved.hash != request_hash(request) {
            Ok(quiet(ResponseView::Rejected(Rejection::RequestConflict)))
        } else {
            match decoded::<Response>(saved.response) {
                Ok(response) => Ok(quiet(response)),
                Err(_) => Err(StorageError::InvalidStoredData(Defect::DeliveryRecord)),
            }
        }
    } else if !receipt_well_formed(user, id, request) {
        Ok(quiet(ResponseView::Rejected(Rejection::Invalid)))
    } else if reads_only(request) || request is Acknowledge {
        settled(view, user, id, request, now, fresh)
    } else {
        match admission(limits, view, facts, user, request) {
            Err(error) => Err(error),
            Ok(false) => Ok(
                OutcomeView {
                    response: ResponseView::Rejected(Rejection::Quota),
                    changes: Seq::empty(),
                    metric: Some(Metric::QuotaRejection),
                },
            ),
            Ok(true) => settled(view, user, id, request, now, fresh),
        }
    }
}

/// What a request is answered, the changes to make, and what to count.
pub struct Outcome {
    pub response: Response,
    pub changes: Vec<Change>,
    pub metric: Option<Metric>,
}

impl DeepView for Outcome {
    type V = OutcomeView;

    open spec fn deep_view(&self) -> OutcomeView {
        OutcomeView {
            response: self.response.deep_view(),
            changes: self.changes.deep_view(),
            metric: self.metric,
        }
    }
}

/// Whether a result is the one that is wanted.
pub open spec fn is_outcome(
    result: Result<Outcome, StorageError>,
    wanted: Result<OutcomeView, StorageError>,
) -> bool {
    match wanted {
        Ok(outcome) => result matches Ok(got) && got.deep_view() == outcome,
        Err(error) => result matches Err(got) && got == error,
    }
}

fn quiet_outcome(response: Response) -> (outcome: Outcome)
    ensures
        outcome.deep_view() == quiet(response.deep_view()),
{
    let changes: Vec<Change> = Vec::new();
    assert(changes.deep_view() =~= Seq::<ChangeView>::empty());
    Outcome { response, changes, metric: None }
}

fn push_change(changes: &mut Vec<Change>, change: Change)
    ensures
        final(changes).deep_view() == old(changes).deep_view().push(change.deep_view()),
{
    changes.push(change);
    assert(changes.deep_view() =~= old(changes).deep_view().push(change.deep_view()));
}

impl RelayTables {
    /// What a request does on its own.
    pub fn execute(
        &self,
        user: UserId,
        id: MessageId,
        request: &Request,
        now: i64,
        fresh: Option<RoomId>,
    ) -> (result: Result<(Response, Vec<Change>), StorageError>)
        ensures
            is_execution(result, execution(self@, user, id, request.deep_view(), now, fresh)),
    {
        match request {
            Request::CreateRoom { name } => self.create_room(user, name, fresh),
            Request::PublishKeyPackages { packages } => self.publish_packages(user, packages),
            Request::SetFetchGrant { requester, allowed } => self.set_grant(
                user,
                *requester,
                *allowed,
            ),
            Request::ReserveKeyPackage { recipient } => self.reserve_package(user, *recipient, now),
            Request::AppendRoomOperation(operation) => self.append_operation(user, id, operation),
            Request::FetchRoomEvents { room, after_sequence } => self.fetch_events(
                user,
                *room,
                *after_sequence,
            ),
            Request::SyncIndex { after_room } => self.sync_index(user, *after_room),
            Request::FetchWelcomes { after_cursor } => self.fetch_welcomes(user, *after_cursor),
            Request::Acknowledge { events, welcomes } => {
                assert(events.deep_view() =~= events@);
                assert(welcomes.deep_view() =~= welcomes@);
                self.acknowledge(user, events, welcomes)
            },
        }
    }

    fn settle(
        &self,
        user: UserId,
        id: MessageId,
        request: &Request,
        hash: [u8; 32],
        size: usize,
        now: i64,
        fresh: Option<RoomId>,
    ) -> (result: Result<Outcome, StorageError>)
        requires
            hash@ == request_hash(request.deep_view()),
            size == Request::encoded(request.deep_view()).len(),
            size <= MAX_PAYLOAD,
        ensures
            is_outcome(result, settled(self@, user, id, request.deep_view(), now, fresh)),
    {
        let (response, mut changes) = match self.execute(user, id, request, now, fresh) {
            Ok(done) => done,
            Err(error) => return Err(error),
        };
        let metric = match &response {
            Response::HeadConflict { .. } => Some(Metric::CommitConflict),
            Response::Rejected(reason) => if matches!(reason, Rejection::Quota) {
                Some(Metric::QuotaRejection)
            } else {
                None
            },
            _ => None,
        };
        let acknowledge = matches!(request, Request::Acknowledge { .. });
        if acknowledge && !matches!(response, Response::Acknowledged) {
            let none: Vec<Change> = Vec::new();
            assert(none.deep_view() =~= Seq::<ChangeView>::empty());
            return Ok(Outcome { response, changes: none, metric });
        }
        let reads = matches!(
            request,
            Request::FetchRoomEvents { .. } | Request::FetchWelcomes { .. } | Request::SyncIndex { .. }
        );
        let passes = match &response {
            Response::Rejected(reason) => matches!(
                reason,
                Rejection::Quota | Rejection::Overloaded | Rejection::Internal
            ),
            _ => false,
        };
        if reads || passes {
            return Ok(Outcome { response, changes, metric });
        }
        let bytes = charge_for(size);
        if !acknowledge {
            let before = self.sender_charge(user);
            if before > MAX_NUMBER || bytes > MAX_NUMBER - before {
                return Err(StorageError::Database);
            }
            push_change(&mut changes, Change::SenderUsage { user, bytes });
            if let Request::AppendRoomOperation(operation) = request {
                let room = operation.room;
                let used = self.room_charge(room);
                if used > MAX_NUMBER || bytes > MAX_NUMBER - used {
                    return Err(StorageError::Database);
                }
                push_change(&mut changes, Change::RoomUsage { room, bytes });
            }
        }
        let kept = match encode_message(&response) {
            Ok(kept) => kept,
            Err(_) => return Err(StorageError::InvalidStoredData(Defect::DeliveryRecord)),
        };
        push_change(&mut changes, Change::Request { user, id, hash, response: kept });
        Ok(Outcome { response, changes, metric })
    }

    /// What a request is answered, without changing anything yet.
    pub fn plan(
        &self,
        limits: &StorageLimits,
        facts: &StorageFacts,
        user: UserId,
        id: MessageId,
        request: &Request,
        now: i64,
        fresh: Option<RoomId>,
    ) -> (result: Result<Outcome, StorageError>)
        ensures
            is_outcome(
                result,
                outcome(self@, *limits, *facts, user, id, request.deep_view(), now, fresh),
            ),
    {
        let hash = match payload_hash(request) {
            Ok(hash) => hash,
            Err(_) => return Err(StorageError::InvalidStoredData(Defect::DeliveryRecord)),
        };
        if let Some(saved) = self.requests.get(&(user, id)) {
            if !same_bytes(&saved.hash, &hash) {
                proof {
                    if saved.hash@ == hash@ {
                        assert(saved.hash =~= hash);
                    }
                }
                return Ok(quiet_outcome(Response::Rejected(Rejection::RequestConflict)));
            }
            return match decode_message::<Response>(saved.response.as_slice()) {
                Ok(response) => Ok(quiet_outcome(response)),
                Err(_) => Err(StorageError::InvalidStoredData(Defect::DeliveryRecord)),
            };
        }
        let size = match encode_message(request) {
            Ok(bytes) => bytes.len(),
            Err(_) => return Err(StorageError::InvalidStoredData(Defect::DeliveryRecord)),
        };
        if let Request::Acknowledge { events, welcomes } = request {
            assert(events.deep_view() =~= events@);
            assert(welcomes.deep_view() =~= welcomes@);
            let single = (events.len() == 1 && welcomes.len() == 0) || (events.len() == 0
                && welcomes.len() == 1);
            if !single || !id.same(
                &acknowledgement_id(user, events.as_slice(), welcomes.as_slice()),
            ) {
                return Ok(quiet_outcome(Response::Rejected(Rejection::Invalid)));
            }
            return self.settle(user, id, request, hash, size, now, fresh);
        }
        let reads = matches!(
            request,
            Request::FetchRoomEvents { .. } | Request::FetchWelcomes { .. } | Request::SyncIndex { .. }
        );
        if !reads {
            match limits.admits(self, facts, user, request) {
                Err(error) => return Err(error),
                Ok(true) => {},
                Ok(false) => {
                    let mut refused = quiet_outcome(Response::Rejected(Rejection::Quota));
                    refused.metric = Some(Metric::QuotaRejection);
                    return Ok(refused);
                },
            }
        }
        self.settle(user, id, request, hash, size, now, fresh)
    }
}

} // verus!
