//! The client's tables, and the changes that they take.
use vstd::prelude::*;
use crate::delivery::copy_bytes;
use crate::ids::{MessageId, RoomId, UserId};
use crate::text::text_is;

verus! {

/// How far something that arrived has been processed.
#[derive(Clone, Copy, Debug, PartialEq, Eq, Structural)]
pub enum Arrival {
    Received,
    /// It waits for something that has to be verified first.
    Blocked,
    Applied,
    Rejected,
}

impl Arrival {
    pub open spec fn text(self) -> Seq<char> {
        match self {
            Arrival::Received => "received"@,
            Arrival::Blocked => "blocked"@,
            Arrival::Applied => "applied"@,
            Arrival::Rejected => "rejected"@,
        }
    }

    /// What it is stored as.
    pub fn name(&self) -> (name: &'static str)
        ensures
            name@ == self.text(),
    {
        match self {
            Arrival::Received => "received",
            Arrival::Blocked => "blocked",
            Arrival::Applied => "applied",
            Arrival::Rejected => "rejected",
        }
    }

    /// The one that is stored under a name.
    pub fn named(name: &String) -> (arrival: Option<Arrival>)
        ensures
            match arrival {
                Some(arrival) => name@ == arrival.text(),
                None => forall|arrival: Arrival| name@ != #[trigger] arrival.text(),
            },
    {
        if text_is(name, "received") {
            return Some(Arrival::Received);
        }
        if text_is(name, "blocked") {
            return Some(Arrival::Blocked);
        }
        if text_is(name, "applied") {
            return Some(Arrival::Applied);
        }
        if text_is(name, "rejected") {
            return Some(Arrival::Rejected);
        }
        None
    }
}

impl DeepView for Arrival {
    type V = Arrival;

    open spec fn deep_view(&self) -> Arrival {
        *self
    }
}

/// A copy of optional bytes.
pub fn copy_option(bytes: &Option<Vec<u8>>) -> (copy: Option<Vec<u8>>)
    ensures
        copy.deep_view() == bytes.deep_view(),
{
    match bytes {
        Some(bytes) => Some(copy_bytes(bytes)),
        None => None,
    }
}

/// A contact whose keys were compared out of band.
#[derive(Debug, PartialEq, Eq)]
pub struct ContactRow {
    pub mls_key: [u8; 32],
    pub card: Vec<u8>,
}

/// What a [`ContactRow`] holds.
#[verifier::ext_equal]
pub struct ContactRowView {
    pub mls_key: Seq<u8>,
    pub card: Seq<u8>,
}

impl DeepView for ContactRow {
    type V = ContactRowView;

    open spec fn deep_view(&self) -> ContactRowView {
        ContactRowView { mls_key: self.mls_key@, card: self.card@ }
    }
}

/// An event that was received.
#[derive(Debug, PartialEq, Eq)]
pub struct InboxRow {
    pub room: RoomId,
    pub sequence: u64,
    pub record: Vec<u8>,
    pub state: Arrival,
}

/// What a [`InboxRow`] holds.
#[verifier::ext_equal]
pub struct InboxRowView {
    pub room: RoomId,
    pub sequence: u64,
    pub record: Seq<u8>,
    pub state: Arrival,
}

impl DeepView for InboxRow {
    type V = InboxRowView;

    open spec fn deep_view(&self) -> InboxRowView {
        InboxRowView {
            room: self.room,
            sequence: self.sequence,
            record: self.record@,
            state: self.state,
        }
    }
}

/// A welcome that was received.
#[derive(Debug, PartialEq, Eq)]
pub struct WelcomeInboxRow {
    pub record: Vec<u8>,
    pub state: Arrival,
}

/// What a [`WelcomeInboxRow`] holds.
#[verifier::ext_equal]
pub struct WelcomeInboxRowView {
    pub record: Seq<u8>,
    pub state: Arrival,
}

impl DeepView for WelcomeInboxRow {
    type V = WelcomeInboxRowView;

    open spec fn deep_view(&self) -> WelcomeInboxRowView {
        WelcomeInboxRowView { record: self.record@, state: self.state }
    }
}

/// What the user wants done in a room, and the attempt that is under way.
#[derive(Debug, PartialEq, Eq)]
pub struct IntentRow {
    pub id: MessageId,
    pub target: Option<UserId>,
    pub plaintext: Option<Vec<u8>>,
    pub package: Option<Vec<u8>>,
    pub attempt: Option<MessageId>,
}

/// What a [`IntentRow`] holds.
#[verifier::ext_equal]
pub struct IntentRowView {
    pub id: MessageId,
    pub target: Option<UserId>,
    pub plaintext: Option<Seq<u8>>,
    pub package: Option<Seq<u8>>,
    pub attempt: Option<MessageId>,
}

impl DeepView for IntentRow {
    type V = IntentRowView;

    open spec fn deep_view(&self) -> IntentRowView {
        IntentRowView {
            id: self.id,
            target: self.target,
            plaintext: self.plaintext.deep_view(),
            package: self.package.deep_view(),
            attempt: self.attempt,
        }
    }
}

/// A message whose author is known.
#[derive(Debug, PartialEq, Eq)]
pub struct HistoryRow {
    pub message_id: MessageId,
    pub room: RoomId,
    pub sequence: u64,
    pub author: UserId,
    pub plaintext: Vec<u8>,
}

/// What a [`HistoryRow`] holds.
#[verifier::ext_equal]
pub struct HistoryRowView {
    pub message_id: MessageId,
    pub room: RoomId,
    pub sequence: u64,
    pub author: UserId,
    pub plaintext: Seq<u8>,
}

impl DeepView for HistoryRow {
    type V = HistoryRowView;

    open spec fn deep_view(&self) -> HistoryRowView {
        HistoryRowView {
            message_id: self.message_id,
            room: self.room,
            sequence: self.sequence,
            author: self.author,
            plaintext: self.plaintext@,
        }
    }
}

/// A received envelope.
#[derive(Debug, PartialEq, Eq)]
pub struct MessageRow {
    pub room: RoomId,
    pub sequence: u64,
    pub sender: UserId,
    pub body: Vec<u8>,
}

/// What a [`MessageRow`] holds.
#[verifier::ext_equal]
pub struct MessageRowView {
    pub room: RoomId,
    pub sequence: u64,
    pub sender: UserId,
    pub body: Seq<u8>,
}

impl DeepView for MessageRow {
    type V = MessageRowView;

    open spec fn deep_view(&self) -> MessageRowView {
        MessageRowView {
            room: self.room,
            sequence: self.sequence,
            sender: self.sender,
            body: self.body@,
        }
    }
}

/// A request that has not been answered for good.
#[derive(Debug, PartialEq, Eq)]
pub struct OutboxRow {
    pub rowid: i64,
    pub request_id: MessageId,
    pub kind: String,
    pub message: Vec<u8>,
}

/// What a [`OutboxRow`] holds.
#[verifier::ext_equal]
pub struct OutboxRowView {
    pub rowid: i64,
    pub request_id: MessageId,
    pub kind: Seq<char>,
    pub message: Seq<u8>,
}

impl DeepView for OutboxRow {
    type V = OutboxRowView;

    open spec fn deep_view(&self) -> OutboxRowView {
        OutboxRowView {
            rowid: self.rowid,
            request_id: self.request_id,
            kind: self.kind@,
            message: self.message@,
        }
    }
}

/// A room that the user knows.
#[derive(Debug, PartialEq, Eq)]
pub struct RoomEntry {
    pub name: String,
    pub origin: String,
}

/// What a [`RoomEntry`] holds.
#[verifier::ext_equal]
pub struct RoomEntryView {
    pub name: Seq<char>,
    pub origin: Seq<char>,
}

impl DeepView for RoomEntry {
    type V = RoomEntryView;

    open spec fn deep_view(&self) -> RoomEntryView {
        RoomEntryView { name: self.name@, origin: self.origin@ }
    }
}

/// One change of the tables.
#[derive(Clone, Debug, PartialEq, Eq)]
#[allow(inconsistent_fields)]
pub enum ClientChange {
    /// The own identity is made.
    Identity { user: UserId, seed: [u8; 32] },
    /// The own group keys are made.
    MlsIdentity { public_key: Vec<u8>, secret_key: Vec<u8> },
    /// A contact is verified.
    Contact { user: UserId, mls_key: [u8; 32], card: Vec<u8> },
    /// A room has been processed up to a position.
    Cursor { room: RoomId, sequence: u64 },
    /// An event is received.
    Inbox { id: MessageId, room: RoomId, sequence: u64, record: Vec<u8> },
    /// A received event is processed.
    InboxState { id: MessageId, state: Arrival },
    /// A welcome is received.
    Welcome { cursor: u64, record: Vec<u8> },
    /// A received welcome is processed.
    WelcomeState { cursor: u64, state: Arrival },
    /// Welcomes have been received up to a cursor.
    WelcomeCursor { cursor: u64 },
    /// The user wants something done in a room.
    Intent { room: RoomId, id: MessageId, target: Option<UserId>, plaintext: Option<Vec<u8>> },
    /// An attempt at it is under way.
    IntentAttempt { room: RoomId, attempt: MessageId },
    /// An attempt failed; what it was for is attempted again.
    IntentsReleased { attempt: MessageId },
    /// The package for an invitation has come; the attempt is over.
    IntentPackage { room: RoomId, package: Vec<u8> },
    /// What an attempt was for is done, or cannot be done.
    IntentsRemoved { attempt: MessageId },
    /// A message is kept; one that is there gets its position.
    History {
        message_id: MessageId,
        room: RoomId,
        sequence: u64,
        author: UserId,
        plaintext: Vec<u8>,
    },
    /// A kept message gets its position.
    HistorySequence { message_id: MessageId, sequence: u64 },
    /// A kept message was not accepted.
    HistoryRemoved { message_id: MessageId },
    /// An envelope is processed.
    Processing { message_id: MessageId, state: Arrival },
    /// An envelope is received.
    Message { message_id: MessageId, room: RoomId, sequence: u64, sender: UserId, body: Vec<u8> },
    /// An envelope is received again, with its position.
    MessageRefreshed {
        message_id: MessageId,
        room: RoomId,
        sequence: u64,
        sender: UserId,
        body: Vec<u8>,
    },
    /// A request waits for its answer.
    Outbox { rowid: i64, request_id: MessageId, kind: String, message: Vec<u8> },
    /// A request was answered.
    OutboxRemoved { request_id: MessageId },
    /// A receipt is owed.
    Ack { message_id: MessageId, room: RoomId },
    /// A receipt was taken.
    AckCleared { message_id: MessageId },
    /// A receipt of a welcome is owed.
    WelcomeAck { welcome_id: MessageId, room: RoomId },
    /// It was taken.
    WelcomeAckCleared { welcome_id: MessageId },
    /// A room is known, or gets another name.
    Room { room: RoomId, name: String, origin: String },
}

/// What a [`ClientChange`] holds.
#[verifier::ext_equal]
#[allow(inconsistent_fields)]
pub enum ClientChangeView {
    Identity { user: UserId, seed: Seq<u8> },
    MlsIdentity { public_key: Seq<u8>, secret_key: Seq<u8> },
    Contact { user: UserId, mls_key: Seq<u8>, card: Seq<u8> },
    Cursor { room: RoomId, sequence: u64 },
    Inbox { id: MessageId, room: RoomId, sequence: u64, record: Seq<u8> },
    InboxState { id: MessageId, state: Arrival },
    Welcome { cursor: u64, record: Seq<u8> },
    WelcomeState { cursor: u64, state: Arrival },
    WelcomeCursor { cursor: u64 },
    Intent { room: RoomId, id: MessageId, target: Option<UserId>, plaintext: Option<Seq<u8>> },
    IntentAttempt { room: RoomId, attempt: MessageId },
    IntentsReleased { attempt: MessageId },
    IntentPackage { room: RoomId, package: Seq<u8> },
    IntentsRemoved { attempt: MessageId },
    History {
        message_id: MessageId,
        room: RoomId,
        sequence: u64,
        author: UserId,
        plaintext: Seq<u8>,
    },
    HistorySequence { message_id: MessageId, sequence: u64 },
    HistoryRemoved { message_id: MessageId },
    Processing { message_id: MessageId, state: Arrival },
    Message { message_id: MessageId, room: RoomId, sequence: u64, sender: UserId, body: Seq<u8> },
    MessageRefreshed {
        message_id: MessageId,
        room: RoomId,
        sequence: u64,
        sender: UserId,
        body: Seq<u8>,
    },
    Outbox { rowid: i64, request_id: MessageId, kind: Seq<char>, message: Seq<u8> },
    OutboxRemoved { request_id: MessageId },
    Ack { message_id: MessageId, room: RoomId },
    AckCleared { message_id: MessageId },
    WelcomeAck { welcome_id: MessageId, room: RoomId },
    WelcomeAckCleared { welcome_id: MessageId },
    Room { room: RoomId, name: Seq<char>, origin: Seq<char> },
}

impl DeepView for ClientChange {
    type V = ClientChangeView;

    open spec fn deep_view(&self) -> ClientChangeView {
        match self {
            ClientChange::Identity { user, seed } => ClientChangeView::Identity {
                user: *user,
                seed: seed@,
            },
            ClientChange::MlsIdentity { public_key, secret_key } => ClientChangeView::MlsIdentity {
                public_key: public_key@,
                secret_key: secret_key@,
            },
            ClientChange::Contact { user, mls_key, card } => ClientChangeView::Contact {
                user: *user,
                mls_key: mls_key@,
                card: card@,
            },
            ClientChange::Cursor { room, sequence } => ClientChangeView::Cursor {
                room: *room,
                sequence: *sequence,
            },
            ClientChange::Inbox { id, room, sequence, record } => ClientChangeView::Inbox {
                id: *id,
                room: *room,
                sequence: *sequence,
                record: record@,
            },
            ClientChange::InboxState { id, state } => ClientChangeView::InboxState {
                id: *id,
                state: *state,
            },
            ClientChange::Welcome { cursor, record } => ClientChangeView::Welcome {
                cursor: *cursor,
                record: record@,
            },
            ClientChange::WelcomeState { cursor, state } => ClientChangeView::WelcomeState {
                cursor: *cursor,
                state: *state,
            },
            ClientChange::WelcomeCursor { cursor } => ClientChangeView::WelcomeCursor { cursor: *cursor },
            ClientChange::Intent { room, id, target, plaintext } => ClientChangeView::Intent {
                room: *room,
                id: *id,
                target: *target,
                plaintext: plaintext.deep_view(),
            },
            ClientChange::IntentAttempt { room, attempt } => ClientChangeView::IntentAttempt {
                room: *room,
                attempt: *attempt,
            },
            ClientChange::IntentsReleased { attempt } => ClientChangeView::IntentsReleased {
                attempt: *attempt,
            },
            ClientChange::IntentPackage { room, package } => ClientChangeView::IntentPackage {
                room: *room,
                package: package@,
            },
            ClientChange::IntentsRemoved { attempt } => ClientChangeView::IntentsRemoved {
                attempt: *attempt,
            },
            ClientChange::History { message_id, room, sequence, author, plaintext } => ClientChangeView::History {
                message_id: *message_id,
                room: *room,
                sequence: *sequence,
                author: *author,
                plaintext: plaintext@,
            },
            ClientChange::HistorySequence { message_id, sequence } => ClientChangeView::HistorySequence {
                message_id: *message_id,
                sequence: *sequence,
            },
            ClientChange::HistoryRemoved { message_id } => ClientChangeView::HistoryRemoved {
                message_id: *message_id,
            },
            ClientChange::Processing { message_id, state } => ClientChangeView::Processing {
                message_id: *message_id,
                state: *state,
            },
            ClientChange::Message { message_id, room, sequence, sender, body } => ClientChangeView::Message {
                message_id: *message_id,
                room: *room,
                sequence: *sequence,
                sender: *sender,
                body: body@,
            },
            ClientChange::MessageRefreshed { message_id, room, sequence, sender, body } => ClientChangeView::MessageRefreshed {
                message_id: *message_id,
                room: *room,
                sequence: *sequence,
                sender: *sender,
                body: body@,
            },
            ClientChange::Outbox { rowid, request_id, kind, message } => ClientChangeView::Outbox {
                rowid: *rowid,
                request_id: *request_id,
                kind: kind@,
                message: message@,
            },
            ClientChange::OutboxRemoved { request_id } => ClientChangeView::OutboxRemoved {
                request_id: *request_id,
            },
            ClientChange::Ack { message_id, room } => ClientChangeView::Ack {
                message_id: *message_id,
                room: *room,
            },
            ClientChange::AckCleared { message_id } => ClientChangeView::AckCleared {
                message_id: *message_id,
            },
            ClientChange::WelcomeAck { welcome_id, room } => ClientChangeView::WelcomeAck {
                welcome_id: *welcome_id,
                room: *room,
            },
            ClientChange::WelcomeAckCleared { welcome_id } => ClientChangeView::WelcomeAckCleared {
                welcome_id: *welcome_id,
            },
            ClientChange::Room { room, name, origin } => ClientChangeView::Room {
                room: *room,
                name: name@,
                origin: origin@,
            },
        }
    }
}

/// What the client stores.
#[verifier::ext_equal]
pub struct ClientView {
    pub identity: Option<(UserId, Seq<u8>)>,
    pub mls_identity: Option<(Seq<u8>, Seq<u8>)>,
    pub contacts: Map<UserId, ContactRowView>,
    pub cursors: Map<RoomId, u64>,
    pub inbox: Map<MessageId, InboxRowView>,
    pub welcomes: Map<u64, WelcomeInboxRowView>,
    pub welcome_cursor: u64,
    pub intents: Map<RoomId, IntentRowView>,
    pub history: Seq<HistoryRowView>,
    pub processing: Map<MessageId, Arrival>,
    pub messages: Map<MessageId, MessageRowView>,
    pub outbox: Seq<OutboxRowView>,
    pub acks: Seq<(MessageId, RoomId)>,
    pub welcome_acks: Seq<(MessageId, RoomId)>,
    pub rooms: Map<RoomId, RoomEntryView>,
}

/// The largest position.
pub const MAX_POSITION: u64 = 0x7fff_ffff_ffff_ffff;

/// Whether an event stands at a position of a room.
pub open spec fn position_taken(inbox: Map<MessageId, InboxRowView>, room: RoomId, sequence: u64) -> bool {
    exists|id: MessageId|
        #![trigger inbox.contains_key(id)]
        inbox.contains_key(id) && inbox[id].room == room && inbox[id].sequence == sequence
}

/// Whether another envelope stands at a position of a room. Zero is no position.
pub open spec fn envelope_position_taken(
    messages: Map<MessageId, MessageRowView>,
    except: MessageId,
    room: RoomId,
    sequence: u64,
) -> bool {
    sequence > 0 && exists|id: MessageId|
        #![trigger messages.contains_key(id)]
        messages.contains_key(id) && id != except && messages[id].room == room
            && messages[id].sequence == sequence
}

/// Whether an intent has an identifier.
pub open spec fn intent_known(intents: Map<RoomId, IntentRowView>, id: MessageId) -> bool {
    exists|room: RoomId|
        #![trigger intents.contains_key(room)]
        intents.contains_key(room) && intents[room].id == id
}

/// The intents when an attempt is no longer under way.
pub open spec fn released(intents: Map<RoomId, IntentRowView>, attempt: MessageId) -> Map<
    RoomId,
    IntentRowView,
> {
    intents.map_values(
        |row: IntentRowView|
            if row.attempt == Some(attempt) {
                IntentRowView { attempt: None, ..row }
            } else {
                row
            },
    )
}

/// The intents other than what an attempt was for.
pub open spec fn without_attempt(
    intents: Map<RoomId, IntentRowView>,
    attempt: MessageId,
) -> Map<RoomId, IntentRowView> {
    intents.restrict(
        Set::new(
            |room: RoomId| intents.contains_key(room) && intents[room].attempt != Some(attempt),
        ),
    )
}

/// Where a request stands in the outbox, or behind it.
pub open spec fn outbox_index(outbox: Seq<OutboxRowView>, id: MessageId) -> nat
    decreases outbox.len(),
{
    if outbox.len() == 0 || outbox[0].request_id == id {
        0
    } else {
        1 + outbox_index(outbox.skip(1), id)
    }
}

/// Whether a request is in the outbox.
pub open spec fn outbox_has(outbox: Seq<OutboxRowView>, id: MessageId) -> bool {
    outbox_index(outbox, id) < outbox.len()
}

/// The number of the newest request, or zero.
pub open spec fn last_rowid(outbox: Seq<OutboxRowView>) -> i64
    decreases outbox.len(),
{
    if outbox.len() == 0 {
        0
    } else {
        let before = last_rowid(outbox.drop_last());
        if outbox.last().rowid > before {
            outbox.last().rowid
        } else {
            before
        }
    }
}

/// Where a message stands in the history, or behind it.
pub open spec fn history_index(history: Seq<HistoryRowView>, id: MessageId) -> nat
    decreases history.len(),
{
    if history.len() == 0 || history[0].message_id == id {
        0
    } else {
        1 + history_index(history.skip(1), id)
    }
}

/// Where a receipt stands, or behind all.
pub open spec fn ack_index(acks: Seq<(MessageId, RoomId)>, id: MessageId) -> nat
    decreases acks.len(),
{
    if acks.len() == 0 || acks[0].0 == id {
        0
    } else {
        1 + ack_index(acks.skip(1), id)
    }
}

/// The list without what stands at an index, if anything does.
pub open spec fn removed_at<A>(items: Seq<A>, index: nat) -> Seq<A> {
    if index < items.len() {
        items.remove(index as int)
    } else {
        items
    }
}

/// Whether the tables can take a change.
pub open spec fn client_admitted(view: ClientView, change: ClientChangeView) -> bool {
    match change {
        ClientChangeView::Identity { .. } => view.identity is None,
        ClientChangeView::MlsIdentity { .. } => view.mls_identity is None,
        ClientChangeView::Contact { user, .. } => !view.contacts.contains_key(user),
        ClientChangeView::Cursor { sequence, .. } => sequence <= MAX_POSITION,
        ClientChangeView::Inbox { id, room, sequence, .. } => sequence <= MAX_POSITION
            && !view.inbox.contains_key(id) && !position_taken(view.inbox, room, sequence),
        ClientChangeView::Welcome { cursor, .. } => cursor <= MAX_POSITION
            && !view.welcomes.contains_key(cursor),
        ClientChangeView::WelcomeCursor { cursor } => cursor <= MAX_POSITION,
        ClientChangeView::Intent { room, id, .. } => !view.intents.contains_key(room)
            && !intent_known(view.intents, id),
        ClientChangeView::History { sequence, .. } => sequence <= MAX_POSITION,
        ClientChangeView::HistorySequence { sequence, .. } => sequence <= MAX_POSITION,
        ClientChangeView::Message { message_id, room, sequence, .. } => sequence <= MAX_POSITION
            && !view.messages.contains_key(message_id) && !envelope_position_taken(
            view.messages,
            message_id,
            room,
            sequence,
        ),
        ClientChangeView::MessageRefreshed { message_id, room, sequence, .. } => sequence
            <= MAX_POSITION && !envelope_position_taken(view.messages, message_id, room, sequence),
        ClientChangeView::Outbox { rowid, request_id, .. } => !outbox_has(view.outbox, request_id)
            && last_rowid(view.outbox) < rowid,
        _ => true,
    }
}

/// The tables after a change.
pub open spec fn client_applied(view: ClientView, change: ClientChangeView) -> ClientView {
    match change {
        ClientChangeView::Identity { user, seed } => ClientView {
            identity: Some((user, seed)),
            ..view
        },
        ClientChangeView::MlsIdentity { public_key, secret_key } => ClientView {
            mls_identity: Some((public_key, secret_key)),
            ..view
        },
        ClientChangeView::Contact { user, mls_key, card } => ClientView {
            contacts: view.contacts.insert(user, ContactRowView { mls_key, card }),
            ..view
        },
        ClientChangeView::Cursor { room, sequence } => ClientView {
            cursors: view.cursors.insert(room, sequence),
            ..view
        },
        ClientChangeView::Inbox { id, room, sequence, record } => ClientView {
            inbox: view.inbox.insert(
                id,
                InboxRowView { room, sequence, record, state: Arrival::Received },
            ),
            ..view
        },
        ClientChangeView::InboxState { id, state } => if view.inbox.contains_key(id) {
            ClientView {
                inbox: view.inbox.insert(id, InboxRowView { state, ..view.inbox[id] }),
                ..view
            }
        } else {
            view
        },
        ClientChangeView::Welcome { cursor, record } => ClientView {
            welcomes: view.welcomes.insert(
                cursor,
                WelcomeInboxRowView { record, state: Arrival::Received },
            ),
            ..view
        },
        ClientChangeView::WelcomeState { cursor, state } => if view.welcomes.contains_key(cursor) {
            ClientView {
                welcomes: view.welcomes.insert(
                    cursor,
                    WelcomeInboxRowView { state, ..view.welcomes[cursor] },
                ),
                ..view
            }
        } else {
            view
        },
        ClientChangeView::WelcomeCursor { cursor } => ClientView { welcome_cursor: cursor, ..view },
        ClientChangeView::Intent { room, id, target, plaintext } => ClientView {
            intents: view.intents.insert(
                room,
                IntentRowView { id, target, plaintext, package: None, attempt: None },
            ),
            ..view
        },
        ClientChangeView::IntentAttempt { room, attempt } => if view.intents.contains_key(room) {
            ClientView {
                intents: view.intents.insert(
                    room,
                    IntentRowView { attempt: Some(attempt), ..view.intents[room] },
                ),
                ..view
            }
        } else {
            view
        },
        ClientChangeView::IntentsReleased { attempt } => ClientView {
            intents: released(view.intents, attempt),
            ..view
        },
        ClientChangeView::IntentPackage { room, package } => if view.intents.contains_key(room) {
            ClientView {
                intents: view.intents.insert(
                    room,
                    IntentRowView { package: Some(package), attempt: None, ..view.intents[room] },
                ),
                ..view
            }
        } else {
            view
        },
        ClientChangeView::IntentsRemoved { attempt } => ClientView {
            intents: without_attempt(view.intents, attempt),
            ..view
        },
        ClientChangeView::History { message_id, room, sequence, author, plaintext } => {
            let at = history_index(view.history, message_id);
            ClientView {
                history: if at < view.history.len() {
                    view.history.update(
                        at as int,
                        HistoryRowView { sequence, ..view.history[at as int] },
                    )
                } else {
                    view.history.push(
                        HistoryRowView { message_id, room, sequence, author, plaintext },
                    )
                },
                ..view
            }
        },
        ClientChangeView::HistorySequence { message_id, sequence } => {
            let at = history_index(view.history, message_id);
            if at < view.history.len() {
                ClientView {
                    history: view.history.update(
                        at as int,
                        HistoryRowView { sequence, ..view.history[at as int] },
                    ),
                    ..view
                }
            } else {
                view
            }
        },
        ClientChangeView::HistoryRemoved { message_id } => ClientView {
            history: removed_at(view.history, history_index(view.history, message_id)),
            ..view
        },
        ClientChangeView::Processing { message_id, state } => ClientView {
            processing: view.processing.insert(message_id, state),
            ..view
        },
        ClientChangeView::Message { message_id, room, sequence, sender, body } => ClientView {
            messages: view.messages.insert(
                message_id,
                MessageRowView { room, sequence, sender, body },
            ),
            ..view
        },
        ClientChangeView::MessageRefreshed { message_id, room, sequence, sender, body } => ClientView {
            messages: view.messages.insert(
                message_id,
                MessageRowView { room, sequence, sender, body },
            ),
            ..view
        },
        ClientChangeView::Outbox { rowid, request_id, kind, message } => ClientView {
            outbox: view.outbox.push(OutboxRowView { rowid, request_id, kind, message }),
            ..view
        },
        ClientChangeView::OutboxRemoved { request_id } => ClientView {
            outbox: removed_at(view.outbox, outbox_index(view.outbox, request_id)),
            ..view
        },
        ClientChangeView::Ack { message_id, room } => if ack_index(view.acks, message_id)
            < view.acks.len() {
            view
        } else {
            ClientView { acks: view.acks.push((message_id, room)), ..view }
        },
        ClientChangeView::AckCleared { message_id } => ClientView {
            acks: removed_at(view.acks, ack_index(view.acks, message_id)),
            ..view
        },
        ClientChangeView::WelcomeAck { welcome_id, room } => if ack_index(
            view.welcome_acks,
            welcome_id,
        ) < view.welcome_acks.len() {
            view
        } else {
            ClientView { welcome_acks: view.welcome_acks.push((welcome_id, room)), ..view }
        },
        ClientChangeView::WelcomeAckCleared { welcome_id } => ClientView {
            welcome_acks: removed_at(view.welcome_acks, ack_index(view.welcome_acks, welcome_id)),
            ..view
        },
        ClientChangeView::Room { room, name, origin } => ClientView {
            rooms: view.rooms.insert(
                room,
                RoomEntryView {
                    name,
                    origin: if view.rooms.contains_key(room) {
                        view.rooms[room].origin
                    } else {
                        origin
                    },
                },
            ),
            ..view
        },
    }
}

/// Whether the tables can take changes one after the other.
pub open spec fn client_all_admitted(view: ClientView, changes: Seq<ClientChangeView>) -> bool
    decreases changes.len(),
{
    changes.len() == 0 || (client_all_admitted(view, changes.drop_last()) && client_admitted(
        client_all_applied(view, changes.drop_last()),
        changes.last(),
    ))
}

/// The tables after changes one after the other.
pub open spec fn client_all_applied(view: ClientView, changes: Seq<ClientChangeView>) -> ClientView
    decreases changes.len(),
{
    if changes.len() == 0 {
        view
    } else {
        client_applied(client_all_applied(view, changes.drop_last()), changes.last())
    }
}

/// Tables without rows.
pub open spec fn empty_client() -> ClientView {
    ClientView {
        identity: None,
        mls_identity: None,
        contacts: Map::empty(),
        cursors: Map::empty(),
        inbox: Map::empty(),
        welcomes: Map::empty(),
        welcome_cursor: 0,
        intents: Map::empty(),
        history: Seq::empty(),
        processing: Map::empty(),
        messages: Map::empty(),
        outbox: Seq::empty(),
        acks: Seq::empty(),
        welcome_acks: Seq::empty(),
        rooms: Map::empty(),
    }
}

} // verus!
