//! Attempts at what the user wants: what is asked of the group library, and what
//! is journaled of its answer.
use vstd::prelude::*;
use crate::client::errors::StoreError;
use crate::client::identity::ClientIdentity;
use crate::client::journal::{
    behind_changes, envelope, event_envelope, journaling, plans, room_cursor, Engine, EngineError,
    Refusal,
};
use crate::client::store::{joined, one_change, plaintext_recording, DatabaseSize};
use crate::client::tables::{ClientChange, ClientChangeView, ClientView, InboxRowView, MAX_POSITION};
use crate::crypto::{own_signature_holds, signature_by};
use crate::delivery::{
    bytes_deep_view, copy_bytes, Append, AppendView, Event, EventView, MlsContentType,
    WelcomeAttachment, WelcomeAttachmentView,
};
use crate::ids::{Ed25519SignatureBytes, MessageId, RoomId, UserId};
use crate::requests::{Request, RequestView};
use crate::transcripts::{event_authenticated_data, event_data, welcome_data, welcome_transcript};

verus! {

/// What an attempt in a room asks for.
#[derive(Debug)]
pub enum AttemptPlan {
    /// Nothing now.
    Skip,
    /// A key package of the recipient.
    Reserve { recipient: UserId },
    /// A commit that adds the recipient, and its welcome.
    Add { recipient: UserId, package: Vec<u8>, parent: u64, authenticated_data: Vec<u8> },
    /// The encrypted text.
    Send { plaintext: Vec<u8>, parent: u64, authenticated_data: Vec<u8> },
}

/// What an [`AttemptPlan`] holds.
#[verifier::ext_equal]
pub enum AttemptPlanView {
    Skip,
    Reserve { recipient: UserId },
    Add { recipient: UserId, package: Seq<u8>, parent: u64, authenticated_data: Seq<u8> },
    Send { plaintext: Seq<u8>, parent: u64, authenticated_data: Seq<u8> },
}

impl DeepView for AttemptPlan {
    type V = AttemptPlanView;

    open spec fn deep_view(&self) -> AttemptPlanView {
        match self {
            AttemptPlan::Skip => AttemptPlanView::Skip,
            AttemptPlan::Reserve { recipient } => AttemptPlanView::Reserve { recipient: *recipient },
            AttemptPlan::Add { recipient, package, parent, authenticated_data } => {
                AttemptPlanView::Add {
                    recipient: *recipient,
                    package: package@,
                    parent: *parent,
                    authenticated_data: authenticated_data@,
                }
            },
            AttemptPlan::Send { plaintext, parent, authenticated_data } => AttemptPlanView::Send {
                plaintext: plaintext@,
                parent: *parent,
                authenticated_data: authenticated_data@,
            },
        }
    }
}

/// What the group library made for an attempt.
#[derive(Debug)]
pub struct GroupOutput {
    pub epoch: u64,
    pub body: Vec<u8>,
    /// The welcome of a new member; empty where there is none.
    pub welcome: Vec<u8>,
}

/// Whether an event of a room has come that is not processed yet.
pub open spec fn waits(inbox: Map<MessageId, InboxRowView>, room: RoomId, cursor: u64) -> bool {
    exists|id: MessageId|
        #![trigger inbox.contains_key(id)]
        inbox.contains_key(id) && inbox[id].room == room && inbox[id].sequence > cursor
}

/// What an attempt in a room asks for. `id` is a fresh identifier for it, and
/// `committing` says whether the group has a commit under way: then it makes no other
/// message.
pub open spec fn planned_attempt(
    view: ClientView,
    room: RoomId,
    id: MessageId,
    has_group: bool,
    committing: bool,
) -> Result<
    AttemptPlanView,
    EngineError,
> {
    let parent = room_cursor(view, room);
    let authenticated_data = event_data(room, id, parent);
    if !view.intents.contains_key(room) || view.intents[room].attempt is Some || !has_group || waits(
        view.inbox,
        room,
        parent,
    ) {
        Ok(AttemptPlanView::Skip)
    } else if parent > MAX_POSITION {
        Err(EngineError::Store(StoreError::Database))
    } else {
        let intent = view.intents[room];
        match (intent.target, intent.package) {
            (Some(recipient), None) => Ok(AttemptPlanView::Reserve { recipient }),
            (_, Some(_)) if committing => Err(EngineError::Refused(Refusal::UnresolvedCommit)),
            (Some(recipient), Some(package)) => Ok(
                AttemptPlanView::Add { recipient, package, parent, authenticated_data },
            ),
            (None, Some(_)) => Err(EngineError::Refused(Refusal::AddWithoutTarget)),
            (None, None) => match intent.plaintext {
                Some(_) if committing => Err(EngineError::Refused(Refusal::UnresolvedCommit)),
                Some(plaintext) => Ok(
                    AttemptPlanView::Send { plaintext, parent, authenticated_data },
                ),
                None => Err(EngineError::Refused(Refusal::SendWithoutPlaintext)),
            },
        }
    }
}

/// Whether the signature of a welcome holds, for the position that its commit takes.
pub open spec fn welcome_signed(
    secret: Seq<u8>,
    recipient: UserId,
    room: RoomId,
    id: MessageId,
    parent: u64,
    welcome: Seq<u8>,
) -> bool {
    let transcript = welcome_data(recipient, room, id, (parent + 1) as u64, welcome);
    own_signature_holds(secret, transcript, signature_by(secret, transcript))
}

/// The operation that adds a recipient. The welcome is signed for the position
/// that the commit takes.
pub open spec fn adding(
    room: RoomId,
    id: MessageId,
    secret: Seq<u8>,
    recipient: UserId,
    parent: u64,
    epoch: u64,
    body: Seq<u8>,
    welcome: Seq<u8>,
) -> AppendView {
    let transcript = welcome_data(recipient, room, id, (parent + 1) as u64, welcome);
    AppendView {
        room,
        parent,
        epoch,
        content_type: MlsContentType::Commit,
        body,
        welcome: Some(
            WelcomeAttachmentView {
                recipient,
                body: welcome,
                signature: Ed25519SignatureBytes::of(signature_by(secret, transcript)),
            },
        ),
    }
}

/// The operation that sends an encrypted text.
pub open spec fn sending(room: RoomId, parent: u64, epoch: u64, body: Seq<u8>) -> AppendView {
    AppendView {
        room,
        parent,
        epoch,
        content_type: MlsContentType::Application,
        body,
        welcome: None,
    }
}

/// What is written when an attempt is journaled.
pub open spec fn attempt_request(
    view: ClientView,
    budget: u64,
    room: RoomId,
    id: MessageId,
    request: RequestView,
    size: DatabaseSize,
) -> Result<Seq<ClientChangeView>, EngineError> {
    match journaling(view.outbox, budget, id, request, size) {
        Ok(changes) => Ok(changes + seq![ClientChangeView::IntentAttempt { room, attempt: id }]),
        Err(error) => Err(error),
    }
}

/// What is written for an attempt: the own text, where it sends one, and the exact
/// request.
pub open spec fn attempting(
    view: ClientView,
    budget: u64,
    user: UserId,
    secret: Seq<u8>,
    room: RoomId,
    id: MessageId,
    plan: AttemptPlanView,
    epoch: u64,
    body: Seq<u8>,
    welcome: Seq<u8>,
    size: DatabaseSize,
) -> Result<Seq<ClientChangeView>, EngineError> {
    match plan {
        AttemptPlanView::Skip => Ok(Seq::empty()),
        AttemptPlanView::Reserve { recipient } => attempt_request(
            view,
            budget,
            room,
            id,
            RequestView::ReserveKeyPackage { recipient },
            size,
        ),
        AttemptPlanView::Add { recipient, parent, .. } => attempt_request(
            view,
            budget,
            room,
            id,
            RequestView::AppendRoomOperation(
                adding(room, id, secret, recipient, parent, epoch, body, welcome),
            ),
            size,
        ),
        AttemptPlanView::Send { plaintext, parent, .. } => {
            let operation = sending(room, parent, epoch, body);
            match plaintext_recording(
                event_envelope(EventView { id, sender: user, operation }),
                user,
                plaintext,
            ) {
                Err(error) => Err(EngineError::Store(error)),
                Ok(recorded) => behind_changes(
                    recorded,
                    attempt_request(
                        view,
                        budget,
                        room,
                        id,
                        RequestView::AppendRoomOperation(operation),
                        size,
                    ),
                ),
            }
        },
    }
}

impl Engine {
    /// The rooms in which something is wanted and no attempt is under way, each
    /// once.
    pub fn open_intents(&self) -> (rooms: Vec<RoomId>)
        ensures
            rooms@.no_duplicates(),
            forall|room: RoomId|
                rooms@.contains(room) <==> (#[trigger] self.store@.intents.contains_key(room)
                    && self.store@.intents[room].attempt is None),
    {
        let ghost intents = self.store@.intents;
        let mut rooms: Vec<RoomId> = Vec::new();
        let count = self.store.tables.intents.len();
        let ghost keys = self.store.tables.intents.row_keys();
        let mut at: usize = 0;
        assert(keys.take(0) =~= Seq::<RoomId>::empty());
        while at < count
            invariant
                at <= count,
                count == keys.len(),
                intents == self.store@.intents,
                keys == self.store.tables.intents.row_keys(),
                keys.no_duplicates(),
                rooms@.no_duplicates(),
                forall|room: RoomId|
                    #![trigger rooms@.contains(room)]
                    rooms@.contains(room) <==> keys.take(at as int).contains(room)
                        && intents.contains_key(room) && intents[room].attempt is None,
            decreases count - at,
        {
            let (room, row) = self.store.tables.intents.at(at);
            let ghost before = rooms@;
            proof {
                assert(keys.take(at + 1) =~= keys.take(at as int).push(*room));
                assert(!keys.take(at as int).contains(*room)) by {
                    if keys.take(at as int).contains(*room) {
                        let k = keys.take(at as int).index_of(*room);
                        assert(keys[k] == keys[at as int]);
                    }
                }
            }
            if row.attempt.is_none() {
                rooms.push(*room);
            }
            proof {
                assert forall|other: RoomId|
                    keys.take(at + 1).contains(other) == (keys.take(at as int).contains(other)
                        || other == *room) by {
                    pushed_contains(keys.take(at as int), *room, other);
                }
                assert forall|other: RoomId| #![trigger rooms@.contains(other)] rooms@.contains(other) <==> keys.take(
                    at + 1,
                ).contains(other) && intents.contains_key(other) && intents[other].attempt is None by {
                    pushed_contains(before, *room, other);
                    assert(before.contains(other) <==> keys.take(at as int).contains(other)
                        && intents.contains_key(other) && intents[other].attempt is None);
                }
                assert(!before.contains(*room));
            }
            at += 1;
        }
        proof {
            assert(keys.take(at as int) =~= keys);
            assert forall|room: RoomId|
                rooms@.contains(room) <==> (#[trigger] intents.contains_key(room)
                    && intents[room].attempt is None) by {
                assert(keys.contains(room) <==> intents.contains_key(room));
            }
        }
        rooms
    }

    /// Whether an event of a room has come that is not processed yet.
    fn awaits(&self, room: RoomId, cursor: u64) -> (yes: bool)
        ensures
            yes == waits(self.store@.inbox, room, cursor),
    {
        let ghost inbox = self.store@.inbox;
        let count = self.store.tables.inbox.len();
        let ghost keys = self.store.tables.inbox.row_keys();
        let mut at: usize = 0;
        while at < count
            invariant
                at <= count,
                count == keys.len(),
                inbox == self.store@.inbox,
                keys == self.store.tables.inbox.row_keys(),
                forall|i: int|
                    0 <= i < at ==> {
                        let row = inbox[#[trigger] keys[i]];
                        !(row.room == room && row.sequence > cursor)
                    },
            decreases count - at,
        {
            let (id, row) = self.store.tables.inbox.at(at);
            if row.room.same(&room) && row.sequence > cursor {
                assert(inbox.contains_key(*id));
                return true;
            }
            at += 1;
        }
        assert forall|id: MessageId| #[trigger] inbox.contains_key(id) implies !(inbox[id].room == room
            && inbox[id].sequence > cursor) by {
            assert(keys.contains(id));
        }
        false
    }

    /// What an attempt in a room asks for. `id` is a fresh identifier for it, and
    /// `committing` says whether the group has a commit under way.
    pub fn plan_attempt(
        &self,
        room: RoomId,
        id: MessageId,
        has_group: bool,
        committing: bool,
    ) -> (result: Result<AttemptPlan, EngineError>)
        ensures
            match planned_attempt(self.store@, room, id, has_group, committing) {
                Ok(plan) => result matches Ok(got) && got.deep_view() == plan,
                Err(error) => result matches Err(got) && got == error,
            },
    {
        let row = match self.store.tables.intents.get(&room) {
            Some(row) => row,
            None => return Ok(AttemptPlan::Skip),
        };
        let parent = self.cursor(room);
        if row.attempt.is_some() || !has_group || self.awaits(room, parent) {
            return Ok(AttemptPlan::Skip);
        }
        if parent > MAX_POSITION {
            return Err(EngineError::Store(StoreError::Database));
        }
        match (&row.target, &row.package) {
            (Some(recipient), None) => Ok(AttemptPlan::Reserve { recipient: *recipient }),
            (_, Some(_)) if committing => Err(EngineError::Refused(Refusal::UnresolvedCommit)),
            (Some(recipient), Some(package)) => {
                proof {
                    bytes_deep_view(*package);
                }
                Ok(
                    AttemptPlan::Add {
                        recipient: *recipient,
                        package: copy_bytes(package),
                        parent,
                        authenticated_data: event_authenticated_data(room, id, parent),
                    },
                )
            },
            (None, Some(_)) => Err(EngineError::Refused(Refusal::AddWithoutTarget)),
            (None, None) => match &row.plaintext {
                Some(_) if committing => Err(EngineError::Refused(Refusal::UnresolvedCommit)),
                Some(plaintext) => {
                    proof {
                        bytes_deep_view(*plaintext);
                    }
                    Ok(
                        AttemptPlan::Send {
                            plaintext: copy_bytes(plaintext),
                            parent,
                            authenticated_data: event_authenticated_data(room, id, parent),
                        },
                    )
                },
                None => Err(EngineError::Refused(Refusal::SendWithoutPlaintext)),
            },
        }
    }

    fn attempt_with(&self, room: RoomId, id: MessageId, request: Request, size: DatabaseSize) -> (result:
        Result<Vec<ClientChange>, EngineError>)
        ensures
            plans(
                result,
                attempt_request(
                    self.store@,
                    self.store.budget(),
                    room,
                    id,
                    request.deep_view(),
                    size,
                ),
            ),
    {
        match self.journal(id, request, size) {
            Ok(changes) => Ok(
                joined(changes, one_change(ClientChange::IntentAttempt { room, attempt: id })),
            ),
            Err(error) => Err(error),
        }
    }

    /// What is written for an attempt, of which the group library made its part. The
    /// signature of a welcome verifies under the own key, unless its first half is the
    /// neutral point.
    pub fn attempt(
        &self,
        room: RoomId,
        id: MessageId,
        plan: &AttemptPlan,
        output: GroupOutput,
        identity: &ClientIdentity,
        size: DatabaseSize,
    ) -> (result: Result<Vec<ClientChange>, EngineError>)
        requires
            plan matches AttemptPlan::Add { parent, .. } ==> parent < u64::MAX,
            plan matches AttemptPlan::Send { parent, .. } ==> parent < u64::MAX,
        ensures
            plans(
                result,
                attempting(
                    self.store@,
                    self.store.budget(),
                    self.user,
                    identity.secret(),
                    room,
                    id,
                    plan.deep_view(),
                    output.epoch,
                    output.body@,
                    output.welcome@,
                    size,
                ),
            ),
            plan matches AttemptPlan::Add { recipient, parent, .. } ==> welcome_signed(
                identity.secret(),
                *recipient,
                room,
                id,
                *parent,
                output.welcome@,
            ),
    {
        proof {
            bytes_deep_view(output.body);
            bytes_deep_view(output.welcome);
        }
        match plan {
            AttemptPlan::Skip => {
                let changes: Vec<ClientChange> = Vec::new();
                assert(changes.deep_view() =~= Seq::<ClientChangeView>::empty());
                Ok(changes)
            },
            AttemptPlan::Reserve { recipient } => self.attempt_with(
                room,
                id,
                Request::ReserveKeyPackage { recipient: *recipient },
                size,
            ),
            AttemptPlan::Add { recipient, parent, .. } => {
                let transcript = welcome_transcript(
                    *recipient,
                    room,
                    id,
                    *parent + 1,
                    output.welcome.as_slice(),
                );
                let signature = identity.sign(transcript.as_slice());
                proof {
                    signature.determined_by_bytes();
                }
                self.attempt_with(
                    room,
                    id,
                    Request::AppendRoomOperation(
                        Append {
                            room,
                            parent: *parent,
                            epoch: output.epoch,
                            content_type: MlsContentType::Commit,
                            body: output.body,
                            welcome: Some(
                                WelcomeAttachment {
                                    recipient: *recipient,
                                    body: output.welcome,
                                    signature,
                                },
                            ),
                        },
                    ),
                    size,
                )
            },
            AttemptPlan::Send { plaintext, parent, .. } => {
                let event = Event {
                    id,
                    sender: self.user,
                    operation: Append {
                        room,
                        parent: *parent,
                        epoch: output.epoch,
                        content_type: MlsContentType::Application,
                        body: output.body,
                        welcome: None,
                    },
                };
                let recorded = match self.store.record_plaintext(
                    &envelope(&event),
                    self.user,
                    plaintext.as_slice(),
                ) {
                    Ok(recorded) => recorded,
                    Err(error) => return Err(EngineError::Store(error)),
                };
                match self.attempt_with(
                    room,
                    id,
                    Request::AppendRoomOperation(event.operation),
                    size,
                ) {
                    Ok(changes) => Ok(joined(recorded, changes)),
                    Err(error) => Err(error),
                }
            },
        }
    }
}

proof fn pushed_contains<A>(items: Seq<A>, item: A, other: A)
    ensures
        items.push(item).contains(other) == (items.contains(other) || other == item),
{
    let longer = items.push(item);
    if items.contains(other) {
        let i = items.index_of(other);
        assert(longer[i] == other);
    }
    assert(longer[items.len() as int] == item);
    if longer.contains(other) {
        let i = longer.index_of(other);
        if i < items.len() {
            assert(items[i] == other);
        }
    }
}

} // verus!
