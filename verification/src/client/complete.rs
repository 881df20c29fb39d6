//! What a client does with the answer to a journaled request.
use vstd::prelude::*;
use crate::client::groups::{
    check_package, mls_rewritten, named_member, package_check, wire_check, PackageFault,
};
use crate::client::journal::{receiving, Engine, EngineError, Refusal};
use crate::client::store::{
    one_change, room_upsert, three_changes, two_changes, unchanged, DatabaseSize,
};
use crate::client::tables::{ClientChange, ClientChangeView, ClientView, IntentRowView};
use crate::delivery::{bytes_deep_view, copy_bytes, MlsContentType};
use crate::ids::{MessageId, RoomId, UserId};
use crate::requests::{Rejection, Request, RequestView, Response, ResponseView};

verus! {

/// What has to be done to a group in the same transaction.
#[derive(Clone, Copy, Debug, PartialEq, Eq)]
pub enum GroupStep {
    Nothing,
    /// Make the group, if it is not there.
    Create(RoomId),
    /// Forget the commit that is under way.
    Discard(RoomId),
    /// Take the commit that is under way.
    Settle(RoomId),
}

/// What to tell the user.
#[derive(Clone, Copy, Debug, PartialEq, Eq)]
pub enum Note {
    RoomCreated { room: RoomId },
    Published { count: u64 },
    GrantSet,
    Reserved,
    Received,
    /// Another operation came first; the room is synchronized before the next
    /// attempt.
    Conflict { room: RoomId },
    /// The relay cannot serve now; the request stays as it is.
    Retained,
    Rejected { reason: Rejection },
    Acknowledged,
}

/// What an answer leads to.
#[derive(Debug)]
pub struct Completion {
    pub step: GroupStep,
    pub changes: Vec<ClientChange>,
    pub note: Note,
}

/// What a [`Completion`] holds.
#[verifier::ext_equal]
pub struct CompletionView {
    pub step: GroupStep,
    pub changes: Seq<ClientChangeView>,
    pub note: Note,
}

impl DeepView for Completion {
    type V = CompletionView;

    open spec fn deep_view(&self) -> CompletionView {
        CompletionView { step: self.step, changes: self.changes.deep_view(), note: self.note }
    }
}

/// Whether an attempt of a room is to reserve a package of a user.
pub open spec fn reserving(
    intents: Map<RoomId, IntentRowView>,
    attempt: MessageId,
    target: UserId,
    room: RoomId,
) -> bool {
    intents.contains_key(room) && intents[room].attempt == Some(attempt) && intents[room].target
        == Some(target)
}

/// The one room in which an attempt is to reserve a package of a user.
pub open spec fn reserving_room(
    intents: Map<RoomId, IntentRowView>,
    attempt: MessageId,
    target: UserId,
) -> Option<RoomId> {
    if exists|room: RoomId|
        #![trigger intents.contains_key(room)]
        reserving(intents, attempt, target, room) && forall|other: RoomId|
            #![trigger intents.contains_key(other)]
            reserving(intents, attempt, target, other) ==> other == room {
        Some(choose|room: RoomId|
            #![trigger intents.contains_key(room)]
            reserving(intents, attempt, target, room) && forall|other: RoomId|
                #![trigger intents.contains_key(other)]
                reserving(intents, attempt, target, other) ==> other == room)
    } else {
        None
    }
}

/// What is done to the group of a request that comes to nothing.
pub open spec fn discarding(request: RequestView) -> GroupStep {
    match request {
        RequestView::AppendRoomOperation(operation) => if operation.content_type
            == MlsContentType::Commit {
            GroupStep::Discard(operation.room)
        } else {
            GroupStep::Nothing
        },
        _ => GroupStep::Nothing,
    }
}

/// The request leaves the journal, and nothing else.
pub open spec fn answered_with(id: MessageId, note: Note) -> Result<CompletionView, EngineError> {
    Ok(
        CompletionView {
            step: GroupStep::Nothing,
            changes: seq![ClientChangeView::OutboxRemoved { request_id: id }],
            note,
        },
    )
}

/// What is written when a room is created.
pub open spec fn room_creation(
    view: ClientView,
    id: MessageId,
    name: Seq<char>,
    room: RoomId,
) -> Result<
    CompletionView,
    EngineError,
> {
    match room_upsert(room, name, "created"@) {
        Err(error) => Err(EngineError::Store(error)),
        Ok(upsert) => Ok(
            CompletionView {
                step: GroupStep::Create(room),
                changes: upsert + (if view.cursors.contains_key(room) {
                    unchanged()
                } else {
                    seq![ClientChangeView::Cursor { room, sequence: 0 }]
                }) + seq![ClientChangeView::OutboxRemoved { request_id: id }],
                note: Note::RoomCreated { room },
            },
        ),
    }
}

/// What is written when a package is reserved, once the package is checked.
pub open spec fn reservation_taken(
    view: ClientView,
    id: MessageId,
    recipient: UserId,
    package: Seq<u8>,
    check: Result<(), PackageFault>,
) -> Result<CompletionView, EngineError> {
    match check {
        Err(fault) => Err(EngineError::Package(fault)),
        Ok(()) => match reserving_room(view.intents, id, recipient) {
            None => Err(EngineError::Refused(Refusal::ReservationUnmatched)),
            Some(room) => Ok(
                CompletionView {
                    step: GroupStep::Nothing,
                    changes: seq![
                        ClientChangeView::IntentPackage { room, package },
                        ClientChangeView::OutboxRemoved { request_id: id },
                    ],
                    note: Note::Reserved,
                },
            ),
        },
    }
}

/// What an answer to a journaled request leads to. `check` is the verdict on the
/// package, where the answer brings one.
pub open spec fn completion(
    view: ClientView,
    budget: u64,
    user: UserId,
    id: MessageId,
    request: RequestView,
    response: ResponseView,
    size: DatabaseSize,
    check: Result<(), PackageFault>,
) -> Result<CompletionView, EngineError> {
    let differs = Err::<CompletionView, EngineError>(
        EngineError::Refused(Refusal::ResponseDiffers),
    );
    match response {
        ResponseView::RoomCreated { room } => match request {
            RequestView::CreateRoom { name } => room_creation(view, id, name, room),
            _ => differs,
        },
        ResponseView::KeyPackagesPublished { count } => match request {
            RequestView::PublishKeyPackages { packages } => if count == packages.len() {
                answered_with(id, Note::Published { count })
            } else {
                differs
            },
            _ => differs,
        },
        ResponseView::FetchGrantSet => if request is SetFetchGrant {
            answered_with(id, Note::GrantSet)
        } else {
            differs
        },
        ResponseView::KeyPackage { recipient: actual, package } => match request {
            RequestView::ReserveKeyPackage { recipient } => if recipient == actual {
                reservation_taken(view, id, recipient, package, check)
            } else {
                differs
            },
            _ => differs,
        },
        ResponseView::AppendAccepted { event } => match request {
            RequestView::AppendRoomOperation(operation) => if event.id == id && event.sender == user
                && event.operation == operation {
                match receiving(view, budget, event, size) {
                    Ok(changes) => Ok(
                        CompletionView { step: GroupStep::Nothing, changes, note: Note::Received },
                    ),
                    Err(error) => Err(error),
                }
            } else {
                differs
            },
            _ => differs,
        },
        ResponseView::HeadConflict { room, head } => match request {
            RequestView::AppendRoomOperation(operation) => if room == operation.room && head
                != operation.parent {
                Ok(
                    CompletionView {
                        step: discarding(request),
                        changes: seq![
                            ClientChangeView::OutboxRemoved { request_id: id },
                            ClientChangeView::HistoryRemoved { message_id: id },
                            ClientChangeView::IntentsReleased { attempt: id },
                        ],
                        note: Note::Conflict { room },
                    },
                )
            } else {
                differs
            },
            _ => differs,
        },
        ResponseView::Rejected(reason) => if reason == Rejection::Overloaded || reason
            == Rejection::Quota || reason == Rejection::Internal {
            Ok(
                CompletionView {
                    step: GroupStep::Nothing,
                    changes: unchanged(),
                    note: Note::Retained,
                },
            )
        } else {
            Ok(
                CompletionView {
                    step: discarding(request),
                    changes: seq![
                        ClientChangeView::IntentsRemoved { attempt: id },
                        ClientChangeView::OutboxRemoved { request_id: id },
                    ],
                    note: Note::Rejected { reason },
                },
            )
        },
        ResponseView::Acknowledged => if request is Acknowledge {
            answered_with(id, Note::Acknowledged)
        } else {
            differs
        },
        _ => differs,
    }
}

/// The verdict on the package that an answer brings.
pub open spec fn package_verdict(
    view: ClientView,
    request: RequestView,
    response: ResponseView,
) -> Result<
    (),
    PackageFault,
> {
    match (request, response) {
        (
            RequestView::ReserveKeyPackage { recipient },
            ResponseView::KeyPackage { package, .. },
        ) => package_check(
            view,
            wire_check(mls_rewritten(package), package),
            named_member(package),
            recipient,
        ),
        _ => Ok(()),
    }
}

/// Whether a result is the one that is meant.
pub open spec fn completes(
    result: Result<Completion, EngineError>,
    meant: Result<CompletionView, EngineError>,
) -> bool {
    match meant {
        Ok(view) => result matches Ok(got) && got.deep_view() == view,
        Err(error) => result matches Err(got) && got == error,
    }
}

fn differs() -> (result: Result<Completion, EngineError>)
    ensures
        result == Err::<Completion, EngineError>(EngineError::Refused(Refusal::ResponseDiffers)),
{
    Err(EngineError::Refused(Refusal::ResponseDiffers))
}

fn answered(id: MessageId, note: Note) -> (result: Result<Completion, EngineError>)
    ensures
        completes(result, answered_with(id, note)),
{
    Ok(
        Completion {
            step: GroupStep::Nothing,
            changes: one_change(ClientChange::OutboxRemoved { request_id: id }),
            note,
        },
    )
}

fn discard_step(request: &Request) -> (step: GroupStep)
    ensures
        step == discarding(request.deep_view()),
{
    match request {
        Request::AppendRoomOperation(operation) => if operation.content_type
            == MlsContentType::Commit {
            GroupStep::Discard(operation.room)
        } else {
            GroupStep::Nothing
        },
        _ => GroupStep::Nothing,
    }
}

impl Engine {
    /// The one room in which an attempt is to reserve a package of a user.
    fn find_reserving(&self, attempt: MessageId, target: UserId) -> (found: Option<RoomId>)
        ensures
            found == reserving_room(self.store@.intents, attempt, target),
    {
        let ghost intents = self.store@.intents;
        let rooms = self.store.tables.rooms_attempting(attempt);
        let mut found: Option<RoomId> = None;
        let mut several = false;
        let mut at: usize = 0;
        while at < rooms.len()
            invariant
                at <= rooms@.len(),
                intents == self.store@.intents,
                rooms@.no_duplicates(),
                forall|room: RoomId|
                    rooms@.contains(room) <==> (#[trigger] intents.contains_key(room)
                        && intents[room].attempt == Some(attempt)),
                several ==> exists|i: int, j: int|
                    0 <= i < j < at && reserving(intents, attempt, target, #[trigger] rooms@[i])
                        && reserving(intents, attempt, target, #[trigger] rooms@[j]),
                found matches Some(room) ==> exists|i: int|
                    0 <= i < at && #[trigger] rooms@[i] == room && reserving(
                        intents,
                        attempt,
                        target,
                        room,
                    ),
                !several ==> forall|i: int|
                    0 <= i < at && reserving(
                        intents,
                        attempt,
                        target,
                        #[trigger] rooms@[i],
                    ) ==> found
                        == Some(rooms@[i]),
            decreases rooms.len() - at,
        {
            assert(rooms@.contains(rooms@[at as int]));
            let wanted = match self.store.tables.intents.get(&rooms[at]) {
                Some(row) => match row.target {
                    Some(user) => user.same(&target),
                    None => false,
                },
                None => false,
            };
            assert(wanted == reserving(intents, attempt, target, rooms@[at as int]));
            if wanted {
                match found {
                    Some(room) => {
                        proof {
                            let i = choose|i: int|
                                0 <= i < at && #[trigger] rooms@[i] == room && reserving(
                                    intents,
                                    attempt,
                                    target,
                                    room,
                                );
                            assert(reserving(intents, attempt, target, rooms@[i]));
                        }
                        several = true;
                    },
                    None => {
                        found = Some(rooms[at]);
                    },
                }
            }
            at += 1;
        }
        if several {
            proof {
                let (i, j) = choose|i: int, j: int|
                    0 <= i < j < at && reserving(intents, attempt, target, #[trigger] rooms@[i])
                        && reserving(intents, attempt, target, #[trigger] rooms@[j]);
                assert(rooms@[i] != rooms@[j]);
                assert(intents.contains_key(rooms@[i]));
                assert(intents.contains_key(rooms@[j]));
            }
            return None;
        }
        proof {
            assert forall|room: RoomId|
                #![trigger intents.contains_key(room)]
                reserving(intents, attempt, target, room) implies found == Some(room) by {
                assert(rooms@.contains(room));
                let i = rooms@.index_of(room);
                assert(rooms@[i] == room);
            }
            if found is Some {
                let room = found->Some_0;
                assert(intents.contains_key(room));
                assert(reserving(intents, attempt, target, room));
            }
        }
        found
    }

    fn complete_creation(&self, id: MessageId, name: &String, room: RoomId) -> (result: Result<
        Completion,
        EngineError,
    >)
        ensures
            completes(result, room_creation(self.store@, id, name@, room)),
    {
        let mut changes = match self.store.upsert_room(room, name.as_str(), "created") {
            Ok(changes) => changes,
            Err(error) => return Err(EngineError::Store(error)),
        };
        let ghost upsert = changes.deep_view();
        if !self.store.tables.cursors.contains(&room) {
            changes.push(ClientChange::Cursor { room, sequence: 0 });
        }
        changes.push(ClientChange::OutboxRemoved { request_id: id });
        proof {
            let cursor = if self.store@.cursors.contains_key(room) {
                unchanged()
            } else {
                seq![ClientChangeView::Cursor { room, sequence: 0 }]
            };
            assert(changes.deep_view() =~= upsert + cursor + seq![
                ClientChangeView::OutboxRemoved { request_id: id },
            ]);
        }
        Ok(Completion { step: GroupStep::Create(room), changes, note: Note::RoomCreated { room } })
    }

    fn complete_reservation(
        &self,
        id: MessageId,
        recipient: UserId,
        package: &Vec<u8>,
        check: Result<(), PackageFault>,
    ) -> (result: Result<Completion, EngineError>)
        ensures
            completes(
                result,
                reservation_taken(self.store@, id, recipient, package.deep_view(), check),
            ),
    {
        match check {
            Ok(()) => {},
            Err(fault) => return Err(EngineError::Package(fault)),
        }
        let room = match self.find_reserving(id, recipient) {
            Some(room) => room,
            None => return Err(EngineError::Refused(Refusal::ReservationUnmatched)),
        };
        proof {
            bytes_deep_view(*package);
        }
        let changes = two_changes(
            ClientChange::IntentPackage { room, package: copy_bytes(package) },
            ClientChange::OutboxRemoved { request_id: id },
        );
        Ok(Completion { step: GroupStep::Nothing, changes, note: Note::Reserved })
    }

    /// What an answer to a journaled request leads to, once the package is checked
    /// that it brings.
    pub fn complete_with(
        &self,
        id: MessageId,
        request: &Request,
        response: &Response,
        size: DatabaseSize,
        check: Result<(), PackageFault>,
    ) -> (result: Result<Completion, EngineError>)
        ensures
            completes(
                result,
                completion(
                    self.store@,
                    self.store.budget(),
                    self.user,
                    id,
                    request.deep_view(),
                    response.deep_view(),
                    size,
                    check,
                ),
            ),
    {
        match (request, response) {
            (Request::CreateRoom { name }, Response::RoomCreated { room }) => {
                self.complete_creation(id, name, *room)
            },
            (
                Request::PublishKeyPackages { packages },
                Response::KeyPackagesPublished { count },
            ) => {
                if *count == packages.len() as u64 {
                    answered(id, Note::Published { count: *count })
                } else {
                    differs()
                }
            },
            (Request::SetFetchGrant { .. }, Response::FetchGrantSet) => answered(
                id,
                Note::GrantSet,
            ),
            (
                Request::ReserveKeyPackage { recipient },
                Response::KeyPackage { recipient: actual, package },
            ) => {
                if recipient.same(actual) {
                    self.complete_reservation(id, *recipient, package, check)
                } else {
                    differs()
                }
            },
            (Request::AppendRoomOperation(operation), Response::AppendAccepted { event }) => {
                if !event.id.same(&id) || !event.sender.same(&self.user) || !event.operation.same(
                    operation,
                ) {
                    return differs();
                }
                match self.receive(event, size) {
                    Ok(changes) => Ok(
                        Completion { step: GroupStep::Nothing, changes, note: Note::Received },
                    ),
                    Err(error) => Err(error),
                }
            },
            (Request::AppendRoomOperation(operation), Response::HeadConflict { room, head }) => {
                if !room.same(&operation.room) || *head == operation.parent {
                    return differs();
                }
                let changes = three_changes(
                    ClientChange::OutboxRemoved { request_id: id },
                    ClientChange::HistoryRemoved { message_id: id },
                    ClientChange::IntentsReleased { attempt: id },
                );
                Ok(
                    Completion {
                        step: discard_step(request),
                        changes,
                        note: Note::Conflict { room: *room },
                    },
                )
            },
            (_, Response::Rejected(reason)) => {
                if *reason == Rejection::Overloaded || *reason == Rejection::Quota || *reason
                    == Rejection::Internal {
                    let changes: Vec<ClientChange> = Vec::new();
                    assert(changes.deep_view() =~= unchanged());
                    return Ok(
                        Completion { step: GroupStep::Nothing, changes, note: Note::Retained },
                    );
                }
                let changes = two_changes(
                    ClientChange::IntentsRemoved { attempt: id },
                    ClientChange::OutboxRemoved { request_id: id },
                );
                Ok(
                    Completion {
                        step: discard_step(request),
                        changes,
                        note: Note::Rejected { reason: *reason },
                    },
                )
            },
            (Request::Acknowledge { .. }, Response::Acknowledged) => answered(
                id,
                Note::Acknowledged,
            ),
            _ => differs(),
        }
    }

    /// What an answer to a journaled request leads to.
    pub fn complete(
        &self,
        id: MessageId,
        request: &Request,
        response: &Response,
        size: DatabaseSize,
    ) -> (result: Result<Completion, EngineError>)
        ensures
            completes(
                result,
                completion(
                    self.store@,
                    self.store.budget(),
                    self.user,
                    id,
                    request.deep_view(),
                    response.deep_view(),
                    size,
                    package_verdict(self.store@, request.deep_view(), response.deep_view()),
                ),
            ),
    {
        let check = match (request, response) {
            (
                Request::ReserveKeyPackage { recipient },
                Response::KeyPackage { package, .. },
            ) => {
                proof {
                    bytes_deep_view(*package);
                }
                check_package(&self.store, package.as_slice(), *recipient)
            },
            _ => Ok(()),
        };
        self.complete_with(id, request, response, size, check)
    }
}

} // verus!
