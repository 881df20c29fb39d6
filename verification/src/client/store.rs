//! What the client keeps: its identity, its journal, its history and its rooms.
//!
//! A function that would write says which changes to write. They are written to
//! disk in one transaction, and taken here by [`ClientStore::commit`].
use vstd::prelude::*;
use crate::arithmetic::{saturated, saturated_product};
use crate::bytes::{same_slices, to_array};
use crate::client::errors::{StoreDefect, StoreError};
use crate::client::identity::ClientIdentity;
use crate::client::state::ClientTables;
use crate::client::tables::{
    client_all_admitted, client_all_applied, empty_client, envelope_position_taken, last_rowid,
    outbox_has, outbox_index, removed_at, Arrival, ClientChange, ClientChangeView, ClientView,
    HistoryRowView, MessageRowView, OutboxRowView, RoomEntryView, MAX_POSITION,
};
use crate::crypto::random_bytes;
use crate::delivery::{bytes_deep_view, copy_bytes, StoredRoomMessage, StoredRoomMessageView};
use crate::ids::{MessageId, RoomId, UserId};
use crate::order::{in_text_order, insert_in_order, text_before};
use crate::protocol::{normalize_room_name, normalized_name};
use crate::text::{parse_number, parsed_number};
use vstd::slice::slice_to_vec;
use vstd::string::StringExecFns;

verus! {

/// The most identifiers in one receipt.
pub const MAX_ACK_CHUNK: usize = 100;

/// The format of the database.
pub const SCHEMA_VERSION: i64 = 9;

/// What marks the database as the client's.
pub const APPLICATION_ID: i64 = 0x4752433a;

/// The most entries on a page of the outbox or of the history.
pub const ROW_LIMIT: usize = 100;

/// The most bytes on a page of the outbox of more than one entry.
pub const OUTBOX_PAGE_BYTES: usize = 0xc_0000;

/// The public and the secret key of a group member.
pub type StoredKeyPair = (Vec<u8>, Vec<u8>);

/// A message whose author is known.
#[derive(Debug, PartialEq, Eq)]
pub struct AuthenticatedMessage {
    pub message_id: MessageId,
    pub room_id: RoomId,
    pub sequence: u64,
    pub author: UserId,
    pub plaintext: Vec<u8>,
}

impl DeepView for AuthenticatedMessage {
    type V = HistoryRowView;

    open spec fn deep_view(&self) -> HistoryRowView {
        HistoryRowView {
            message_id: self.message_id,
            room: self.room_id,
            sequence: self.sequence,
            author: self.author,
            plaintext: self.plaintext@,
        }
    }
}

/// A request that waits for its answer.
#[derive(Debug, PartialEq, Eq)]
pub struct OutboxEntry {
    pub request_id: MessageId,
    pub kind: String,
    pub message: Vec<u8>,
}

/// What an [`OutboxEntry`] holds.
#[verifier::ext_equal]
pub struct OutboxEntryView {
    pub request_id: MessageId,
    pub kind: Seq<char>,
    pub message: Seq<u8>,
}

impl DeepView for OutboxEntry {
    type V = OutboxEntryView;

    open spec fn deep_view(&self) -> OutboxEntryView {
        OutboxEntryView {
            request_id: self.request_id,
            kind: self.kind@,
            message: self.message@,
        }
    }
}

/// The entry in a row of the outbox.
pub open spec fn entry_of(row: OutboxRowView) -> OutboxEntryView {
    OutboxEntryView { request_id: row.request_id, kind: row.kind, message: row.message }
}

/// What the database says of its size.
#[derive(Clone, Copy, Debug, PartialEq, Eq, Structural)]
pub struct DatabaseSize {
    pub page_size: u64,
    pub page_count: u64,
}

/// Whether a result is the one that a plan gives.
pub open spec fn gives(
    result: Result<Vec<ClientChange>, StoreError>,
    plan: Result<Seq<ClientChangeView>, StoreError>,
) -> bool {
    match plan {
        Ok(changes) => result matches Ok(got) && got.deep_view() == changes,
        Err(error) => result matches Err(got) && got == error,
    }
}

/// No change.
pub open spec fn unchanged() -> Seq<ClientChangeView> {
    Seq::empty()
}

fn no_change() -> (changes: Vec<ClientChange>)
    ensures
        changes.deep_view() == unchanged(),
{
    let changes: Vec<ClientChange> = Vec::new();
    assert(changes.deep_view() =~= unchanged());
    changes
}

/// A list of one change.
pub(crate) fn one_change(change: ClientChange) -> (changes: Vec<ClientChange>)
    ensures
        changes.deep_view() == seq![change.deep_view()],
{
    let mut changes: Vec<ClientChange> = Vec::new();
    changes.push(change);
    assert(changes.deep_view() =~= seq![change.deep_view()]);
    changes
}

/// A list of two changes.
pub(crate) fn two_changes(first: ClientChange, second: ClientChange) -> (changes: Vec<ClientChange>)
    ensures
        changes.deep_view() == seq![first.deep_view(), second.deep_view()],
{
    let mut changes: Vec<ClientChange> = Vec::new();
    changes.push(first);
    changes.push(second);
    assert(changes.deep_view() =~= seq![first.deep_view(), second.deep_view()]);
    changes
}

/// A list of three changes.
pub(crate) fn three_changes(first: ClientChange, second: ClientChange, third: ClientChange) -> (changes:
    Vec<ClientChange>)
    ensures
        changes.deep_view() == seq![first.deep_view(), second.deep_view(), third.deep_view()],
{
    let mut changes: Vec<ClientChange> = Vec::new();
    changes.push(first);
    changes.push(second);
    changes.push(third);
    assert(changes.deep_view() =~= seq![first.deep_view(), second.deep_view(), third.deep_view()]);
    changes
}

/// Changes behind other changes.
pub(crate) fn joined(mut first: Vec<ClientChange>, mut rest: Vec<ClientChange>) -> (changes: Vec<
    ClientChange,
>)
    ensures
        changes.deep_view() == first.deep_view() + rest.deep_view(),
{
    let ghost front = first.deep_view();
    let ghost back = rest.deep_view();
    first.append(&mut rest);
    assert(first.deep_view() =~= front + back);
    first
}

/// What has to be done with a database before it is used.
#[derive(Clone, Copy, Debug, PartialEq, Eq, Structural)]
pub enum SchemaStep {
    /// Nothing: it has the format.
    Ready,
    /// It is empty and gets the format.
    Create,
}

/// Whether a database can be used.
pub fn initialize(version: i64, application_id: i64, objects: i64) -> (result: Result<
    SchemaStep,
    StoreError,
>)
    ensures
        result == (if version == SCHEMA_VERSION && application_id == APPLICATION_ID {
            Ok::<SchemaStep, StoreError>(SchemaStep::Ready)
        } else if version == 0 && application_id == 0 && objects == 0 {
            Ok(SchemaStep::Create)
        } else {
            Err(StoreError::UnsupportedSchema(version))
        }),
{
    if version == SCHEMA_VERSION && application_id == APPLICATION_ID {
        return Ok(SchemaStep::Ready);
    }
    if version != 0 || application_id != 0 || objects != 0 {
        return Err(StoreError::UnsupportedSchema(version));
    }
    Ok(SchemaStep::Create)
}

/// The budget that a text configures.
pub open spec fn configured_budget(text: Option<Seq<char>>) -> Result<u64, StoreError> {
    let value = match text {
        None => Some(0x4000_0000nat),
        Some(text) => parsed_number(text, u64::MAX as nat),
    };
    match value {
        None => Err(StoreError::InvalidData(StoreDefect::InvalidBudget)),
        Some(value) => if value < 128 * 1024 || value > 0x7fff_ffff_ffff_ffff - 0x400_0000 {
            Err(StoreError::InvalidData(StoreDefect::BudgetRange))
        } else {
            Ok(value as u64)
        },
    }
}

/// The budget for new data.
pub fn storage_budget(text: &Option<String>) -> (result: Result<u64, StoreError>)
    ensures
        result == configured_budget(text.deep_view()),
{
    let value: u64 = match text {
        None => 0x4000_0000,
        Some(text) => {
            match parse_number(text.as_str(), u64::MAX) {
                Some(value) => value,
                None => return Err(StoreError::InvalidData(StoreDefect::InvalidBudget)),
            }
        },
    };
    if value < 128 * 1024 || value > 0x7fff_ffff_ffff_ffff - 0x400_0000 {
        return Err(StoreError::InvalidData(StoreDefect::BudgetRange));
    }
    Ok(value)
}

/// The most pages that a database within a budget has. Receipts and recovery may
/// go beyond the budget.
pub fn page_limit(budget: u64, page_size: u64) -> (pages: u64)
    requires
        page_size > 0,
        budget <= 0x7fff_ffff_ffff_ffff - 0x400_0000,
    ensures
        pages == (budget + 0x400_0000) / page_size as int,
{
    (budget + 0x400_0000) / page_size
}

/// Whether new data of so many bytes may be stored.
pub open spec fn within_budget(size: DatabaseSize, bytes: nat, budget: u64) -> bool {
    saturated(
        saturated(
            saturated(size.page_count * size.page_size) + saturated(3 * bytes as int),
        ) + 0x1_0000,
    ) <= budget
}

/// What is written for a received message, and whether it is new.
pub open spec fn message_storing(view: ClientView, message: StoredRoomMessageView) -> Result<
    (bool, Seq<ClientChangeView>),
    StoreError,
> {
    if view.messages.contains_key(message.message_id) {
        if view.messages[message.message_id] == (MessageRowView {
            room: message.room_id,
            sequence: message.sequence,
            sender: message.sender_id,
            body: message.body,
        }) {
            Ok((false, unchanged()))
        } else {
            Err(StoreError::InvalidData(StoreDefect::EnvelopeReused))
        }
    } else if message.sequence > MAX_POSITION {
        Err(StoreError::InvalidData(StoreDefect::SequenceRange))
    } else if envelope_position_taken(
        view.messages,
        message.message_id,
        message.room_id,
        message.sequence,
    ) {
        Err(StoreError::Database)
    } else {
        Ok(
            (
                true,
                seq![
                    ClientChangeView::Message {
                        message_id: message.message_id,
                        room: message.room_id,
                        sequence: message.sequence,
                        sender: message.sender_id,
                        body: message.body,
                    },
                ],
            ),
        )
    }
}

/// What is written for a message that comes back with its position: its whole
/// envelope, in place of the one that is there.
pub open spec fn message_refreshing(view: ClientView, message: StoredRoomMessageView) -> Result<
    Seq<ClientChangeView>,
    StoreError,
> {
    if message.sequence > MAX_POSITION {
        Err(StoreError::InvalidData(StoreDefect::SequenceRange))
    } else if envelope_position_taken(
        view.messages,
        message.message_id,
        message.room_id,
        message.sequence,
    ) {
        Err(StoreError::Database)
    } else {
        Ok(
            seq![
                ClientChangeView::MessageRefreshed {
                    message_id: message.message_id,
                    room: message.room_id,
                    sequence: message.sequence,
                    sender: message.sender_id,
                    body: message.body,
                },
            ],
        )
    }
}

/// What is written to journal a request: nothing where it stands there, and never
/// another one under the same identifier.
pub open spec fn outbox_saving(
    outbox: Seq<OutboxRowView>,
    request_id: MessageId,
    kind: Seq<char>,
    message: Seq<u8>,
) -> Result<Seq<ClientChangeView>, StoreError> {
    if outbox_has(outbox, request_id) {
        let row = outbox[outbox_index(outbox, request_id) as int];
        if row.kind == kind && row.message == message {
            Ok(unchanged())
        } else {
            Err(StoreError::InvalidData(StoreDefect::AttemptReused))
        }
    } else if last_rowid(outbox) == i64::MAX {
        Err(StoreError::Database)
    } else {
        Ok(
            seq![
                ClientChangeView::Outbox {
                    rowid: (last_rowid(outbox) + 1) as i64,
                    request_id,
                    kind,
                    message,
                },
            ],
        )
    }
}

/// The rows behind a number.
pub open spec fn behind(after: i64) -> spec_fn(OutboxRowView) -> bool {
    |row: OutboxRowView| row.rowid > after
}

/// The bytes of the messages in rows.
pub open spec fn message_bytes(rows: Seq<OutboxRowView>) -> nat
    decreases rows.len(),
{
    if rows.len() == 0 {
        0
    } else {
        message_bytes(rows.drop_last()) + rows.last().message.len()
    }
}

/// How many rows a page takes: as many as fit, and one in any case.
pub open spec fn page_rows(rows: Seq<OutboxRowView>, taken: nat) -> nat
    decreases rows.len() - taken,
{
    if taken >= rows.len() || taken >= ROW_LIMIT || (taken > 0 && message_bytes(
        rows.take((taken + 1) as int),
    ) > OUTBOX_PAGE_BYTES) {
        taken
    } else {
        page_rows(rows, taken + 1)
    }
}

/// The page of the outbox behind a number.
pub open spec fn page_of_outbox(outbox: Seq<OutboxRowView>, after: i64) -> Seq<OutboxRowView> {
    let rows = outbox.filter(behind(after));
    rows.take(page_rows(rows, 0) as int)
}

/// What is written for a message whose author is known.
pub open spec fn plaintext_recording(
    message: StoredRoomMessageView,
    author: UserId,
    plaintext: Seq<u8>,
) -> Result<Seq<ClientChangeView>, StoreError> {
    if message.sequence > MAX_POSITION {
        Err(StoreError::Database)
    } else {
        Ok(
            seq![
                ClientChangeView::History {
                    message_id: message.message_id,
                    room: message.room_id,
                    sequence: message.sequence,
                    author,
                    plaintext,
                },
            ],
        )
    }
}

/// The messages of a room before a position.
pub open spec fn in_room(room: RoomId, before: Option<u64>) -> spec_fn(HistoryRowView) -> bool {
    |row: HistoryRowView|
        row.room == room && match before {
            Some(limit) => row.sequence < limit,
            None => true,
        }
}

/// Where the first message behind a position stands.
pub open spec fn first_later(rows: Seq<HistoryRowView>, sequence: u64) -> nat
    decreases rows.len(),
{
    if rows.len() == 0 || rows[0].sequence > sequence {
        0
    } else {
        1 + first_later(rows.skip(1), sequence)
    }
}

/// Messages in the order of their positions; of two at one position the older
/// comes first.
pub open spec fn by_position(rows: Seq<HistoryRowView>) -> Seq<HistoryRowView>
    decreases rows.len(),
{
    if rows.len() == 0 {
        rows
    } else {
        let before = by_position(rows.drop_last());
        before.insert(first_later(before, rows.last().sequence) as int, rows.last())
    }
}

/// The newest messages of a room before a position, oldest first.
pub open spec fn page_of_history(
    history: Seq<HistoryRowView>,
    room: RoomId,
    before: Option<u64>,
) -> Seq<HistoryRowView> {
    let rows = by_position(history.filter(in_room(room, before)));
    if rows.len() > ROW_LIMIT {
        rows.skip(rows.len() - ROW_LIMIT)
    } else {
        rows
    }
}

/// What is written for the own group keys.
pub open spec fn mls_identity_saving(
    view: ClientView,
    public_key: Seq<u8>,
    secret_key: Seq<u8>,
) -> Result<Seq<ClientChangeView>, StoreError> {
    match view.mls_identity {
        Some(existing) => if existing == (public_key, secret_key) {
            Ok(unchanged())
        } else {
            Err(StoreError::InvalidData(StoreDefect::MlsIdentityReplaced))
        },
        None => Ok(seq![ClientChangeView::MlsIdentity { public_key, secret_key }]),
    }
}

/// What is written for a room.
pub open spec fn room_upsert(room: RoomId, name: Seq<char>, origin: Seq<char>) -> Result<
    Seq<ClientChangeView>,
    StoreError,
> {
    match normalized_name(name) {
        Ok(name) => Ok(seq![ClientChangeView::Room { room, name, origin }]),
        Err(_) => Err(StoreError::InvalidData(StoreDefect::RoomName)),
    }
}

/// What is written for receipts that are owed.
pub open spec fn ack_changes(ids: Seq<(MessageId, RoomId)>) -> Seq<ClientChangeView> {
    Seq::new(
        ids.len(),
        |i: int| ClientChangeView::Ack { message_id: ids[i].0, room: ids[i].1 },
    )
}

/// What is written for receipts that were taken.
pub open spec fn ack_clearings(ids: Seq<MessageId>) -> Seq<ClientChangeView> {
    Seq::new(ids.len(), |i: int| ClientChangeView::AckCleared { message_id: ids[i] })
}

/// What is written for receipts of welcomes that are owed.
pub open spec fn welcome_ack_changes(ids: Seq<(MessageId, RoomId)>) -> Seq<ClientChangeView> {
    Seq::new(
        ids.len(),
        |i: int| ClientChangeView::WelcomeAck { welcome_id: ids[i].0, room: ids[i].1 },
    )
}

/// What is written for receipts of welcomes that were taken.
pub open spec fn welcome_ack_clearings(ids: Seq<MessageId>) -> Seq<ClientChangeView> {
    Seq::new(ids.len(), |i: int| ClientChangeView::WelcomeAckCleared { welcome_id: ids[i] })
}

/// The identifier that bytes hold.
pub fn stored_message_id(bytes: &[u8]) -> (result: Result<MessageId, StoreError>)
    ensures
        match result {
            Ok(id) => bytes@.len() == 16 && id@ == bytes@,
            Err(error) => bytes@.len() != 16 && error == StoreError::InvalidData(
                StoreDefect::MessageIdLength,
            ),
        },
{
    if bytes.len() != 16 {
        return Err(StoreError::InvalidData(StoreDefect::MessageIdLength));
    }
    Ok(MessageId::from_bytes(to_array(bytes)))
}

/// The room that bytes hold.
pub fn stored_room_id(bytes: &[u8]) -> (result: Result<RoomId, StoreError>)
    ensures
        match result {
            Ok(id) => bytes@.len() == 16 && id@ == bytes@,
            Err(error) => bytes@.len() != 16 && error == StoreError::InvalidData(
                StoreDefect::RoomIdLength,
            ),
        },
{
    if bytes.len() != 16 {
        return Err(StoreError::InvalidData(StoreDefect::RoomIdLength));
    }
    Ok(RoomId::from_bytes(to_array(bytes)))
}

/// The user that bytes hold.
pub fn stored_user_id(bytes: &[u8]) -> (result: Result<UserId, StoreError>)
    ensures
        match result {
            Ok(id) => bytes@.len() == 16 && id@ == bytes@,
            Err(error) => bytes@.len() != 16 && error == StoreError::InvalidData(
                StoreDefect::UserIdLength,
            ),
        },
{
    if bytes.len() != 16 {
        return Err(StoreError::InvalidData(StoreDefect::UserIdLength));
    }
    Ok(UserId::from_bytes(to_array(bytes)))
}

/// The seed of an identity that bytes hold.
pub fn stored_seed(bytes: &[u8]) -> (result: Result<[u8; 32], StoreError>)
    ensures
        match result {
            Ok(seed) => bytes@.len() == 32 && seed@ == bytes@,
            Err(error) => bytes@.len() != 32 && error == StoreError::InvalidData(
                StoreDefect::IdentitySeed,
            ),
        },
{
    if bytes.len() != 32 {
        return Err(StoreError::InvalidData(StoreDefect::IdentitySeed));
    }
    Ok(to_array(bytes))
}

/// Whether a list holds every room once, with its name and origin, in the order of
/// the names. Rooms of one name stand in any order.
pub open spec fn rooms_in_order(view: ClientView, rooms: Seq<(RoomId, String, String)>) -> bool {
    &&& forall|i: int, j: int|
        0 <= i < j < rooms.len() ==> !text_before(
            (#[trigger] rooms[j]).1@,
            (#[trigger] rooms[i]).1@,
        ) && rooms[i].0 != rooms[j].0
    &&& forall|i: int|
        0 <= i < rooms.len() ==> view.rooms.contains_key((#[trigger] rooms[i]).0)
            && view.rooms[rooms[i].0] == (RoomEntryView {
            name: rooms[i].1@,
            origin: rooms[i].2@,
        })
    &&& forall|room: RoomId| #[trigger]
        view.rooms.contains_key(room) ==> exists|i: int|
            0 <= i < rooms.len() && (#[trigger] rooms[i]).0 == room
}

/// Whether rows are those of some rooms, each once.
spec fn rooms_listed(
    rooms: Map<RoomId, RoomEntryView>,
    sorted: Seq<(String, (RoomId, String))>,
    keys: Seq<RoomId>,
) -> bool {
    &&& forall|i: int| 0 <= i < sorted.len() ==> keys.contains((#[trigger] sorted[i]).1.0)
    &&& forall|room: RoomId| #[trigger]
        keys.contains(room) ==> exists|i: int|
            0 <= i < sorted.len() && (#[trigger] sorted[i]).1.0 == room
    &&& forall|i: int, j: int|
        0 <= i < j < sorted.len() ==> (#[trigger] sorted[i]).1.0 != (#[trigger] sorted[j]).1.0
    &&& forall|i: int|
        0 <= i < sorted.len() ==> rooms.contains_key((#[trigger] sorted[i]).1.0)
            && rooms[sorted[i].1.0] == (RoomEntryView {
            name: sorted[i].0@,
            origin: sorted[i].1.1@,
        })
}

proof fn listing_grows(
    rooms: Map<RoomId, RoomEntryView>,
    before: Seq<(String, (RoomId, String))>,
    keys: Seq<RoomId>,
    place: int,
    row: (String, (RoomId, String)),
)
    requires
        rooms_listed(rooms, before, keys),
        0 <= place <= before.len(),
        !keys.contains(row.1.0),
        rooms.contains_key(row.1.0),
        rooms[row.1.0] == (RoomEntryView { name: row.0@, origin: row.1.1@ }),
    ensures
        rooms_listed(rooms, before.insert(place, row), keys.push(row.1.0)),
{
    let after = before.insert(place, row);
    let grown = keys.push(row.1.0);
    assert(grown[keys.len() as int] == row.1.0);
    assert(grown.contains(row.1.0));
    assert forall|room: RoomId| keys.contains(room) implies #[trigger] grown.contains(room) by {
        let k = keys.index_of(room);
        assert(grown[k] == room);
    }
    assert forall|i: int| 0 <= i < after.len() implies grown.contains((#[trigger] after[i]).1.0) by {
        if i != place {
            let was = if i < place { i } else { i - 1 };
            assert(after[i] == before[was]);
            assert(keys.contains(before[was].1.0));
        }
    }
    assert forall|room: RoomId| #[trigger] grown.contains(room) implies exists|i: int|
        0 <= i < after.len() && (#[trigger] after[i]).1.0 == room by {
        if room == row.1.0 {
            assert(after[place].1.0 == room);
        } else {
            let k = grown.index_of(room);
            assert(keys[k] == room);
            assert(keys.contains(room));
            let i = choose|i: int| 0 <= i < before.len() && (#[trigger] before[i]).1.0 == room;
            let now = if i < place { i } else { i + 1 };
            assert(after[now] == before[i]);
        }
    }
    assert forall|i: int, j: int| 0 <= i < j < after.len() implies (#[trigger] after[i]).1.0 != (
    #[trigger] after[j]).1.0 by {
        let a = if i < place { i } else { i - 1 };
        let b = if j < place { j } else { j - 1 };
        if i != place {
            assert(after[i] == before[a]);
            assert(keys.contains(before[a].1.0));
        }
        if j != place {
            assert(after[j] == before[b]);
            assert(keys.contains(before[b].1.0));
        }
    }
    assert forall|i: int| 0 <= i < after.len() implies rooms.contains_key((#[trigger] after[i]).1.0)
        && rooms[after[i].1.0] == (RoomEntryView {
        name: after[i].0@,
        origin: after[i].1.1@,
    }) by {
        if i != place {
            let was = if i < place { i } else { i - 1 };
            assert(after[i] == before[was]);
        }
    }
}

/// The client's store.
pub struct ClientStore {
    pub(crate) tables: ClientTables,
    pub(crate) owner: Option<u64>,
    pub(crate) poisoned: bool,
    pub(crate) new_data_limit: u64,
}

impl View for ClientStore {
    type V = ClientView;

    open(crate) spec fn view(&self) -> ClientView {
        self.tables@
    }
}

impl ClientStore {
    /// The worker whose transaction is open.
    pub closed spec fn owner(self) -> Option<u64> {
        self.owner
    }

    /// Whether the store is closed to all further work.
    pub closed spec fn is_poisoned(self) -> bool {
        self.poisoned
    }

    /// The budget for new data.
    pub closed spec fn budget(self) -> u64 {
        self.new_data_limit
    }

    /// Why a worker may not use the store, if it may not.
    pub open spec fn barred(self, worker: u64) -> Option<StoreError> {
        if self.is_poisoned() {
            Some(StoreError::LockPoisoned)
        } else if self.owner() is Some && self.owner() != Some(worker) {
            Some(StoreError::InvalidData(StoreDefect::ForeignTransaction))
        } else {
            None
        }
    }

    /// An empty store with a budget for new data.
    pub fn new(budget: u64) -> (store: ClientStore)
        ensures
            store@ == empty_client(),
            store.owner() is None,
            !store.is_poisoned(),
            store.budget() == budget,
    {
        ClientStore {
            tables: ClientTables::new(),
            owner: None,
            poisoned: false,
            new_data_limit: budget,
        }
    }

    /// Whether new data of so many bytes may be stored.
    pub fn admit_new_data(
        &self,
        bytes: usize,
        size: DatabaseSize,
    ) -> (result: Result<(), StoreError>)
        ensures
            result == (if within_budget(size, bytes as nat, self.budget()) {
                Ok::<(), StoreError>(())
            } else {
                Err(StoreError::Quota)
            }),
    {
        let used = saturated_product(size.page_count, size.page_size);
        let data = saturated_product(bytes as u64, 3);
        assert(bytes as u64 == bytes);
        assert(3 * (bytes as int) == bytes * 3);
        if used.saturating_add(data).saturating_add(64 * 1024) > self.new_data_limit {
            return Err(StoreError::Quota);
        }
        Ok(())
    }

    /// Whether a worker may use the store.
    pub fn lock(&self, worker: u64) -> (result: Result<(), StoreError>)
        ensures
            result == (match self.barred(worker) {
                Some(error) => Err::<(), StoreError>(error),
                None => Ok(()),
            }),
    {
        if self.poisoned {
            return Err(StoreError::LockPoisoned);
        }
        if let Some(owner) = self.owner {
            if owner != worker {
                return Err(StoreError::InvalidData(StoreDefect::ForeignTransaction));
            }
        }
        Ok(())
    }

    /// Whether the group library may use the store. It may run its checks on
    /// threads of its own within a transaction.
    pub fn lock_provider(&self) -> (result: Result<(), StoreError>)
        ensures
            result == (if self.is_poisoned() {
                Err::<(), StoreError>(StoreError::LockPoisoned)
            } else {
                Ok(())
            }),
    {
        if self.poisoned {
            return Err(StoreError::LockPoisoned);
        }
        Ok(())
    }

    /// Opens a transaction, of which there is one at a time.
    pub fn transaction(&mut self, worker: u64) -> (result: Result<(), StoreError>)
        ensures
            result == (match old(self).barred(worker) {
                Some(error) => Err::<(), StoreError>(error),
                None => if old(self).owner() is Some {
                    Err(StoreError::InvalidData(StoreDefect::NestedTransaction))
                } else {
                    Ok(())
                },
            }),
            final(self)@ == old(self)@,
            final(self).budget() == old(self).budget(),
            final(self).is_poisoned() == old(self).is_poisoned(),
            final(self).owner() == (if result is Ok {
                Some(worker)
            } else {
                old(self).owner()
            }),
    {
        match self.lock(worker) {
            Ok(()) => {},
            Err(error) => return Err(error),
        }
        if self.owner.is_some() {
            return Err(StoreError::InvalidData(StoreDefect::NestedTransaction));
        }
        self.owner = Some(worker);
        Ok(())
    }

    /// Takes the changes of a transaction, or none of them where they would break a
    /// constraint, and closes it.
    pub fn commit(&mut self, worker: u64, changes: Vec<ClientChange>) -> (result: Result<
        (),
        StoreError,
    >)
        ensures
            final(self).budget() == old(self).budget(),
            match old(self).barred(worker) {
                Some(error) => result == Err::<(), StoreError>(error) && *final(self) == *old(self),
                None => if client_all_admitted(old(self)@, changes.deep_view()) {
                    result is Ok && final(self)@ == client_all_applied(
                        old(self)@,
                        changes.deep_view(),
                    ) && final(self).owner() is None && !final(self).is_poisoned()
                } else {
                    result == Err::<(), StoreError>(StoreError::Database) && final(self)@
                        == old(self)@ && final(self).owner() is None
                        && !final(self).is_poisoned()
                },
            },
    {
        match self.lock(worker) {
            Ok(()) => {},
            Err(error) => return Err(error),
        }
        self.owner = None;
        match self.tables.commit(changes) {
            Ok(()) => Ok(()),
            Err(_) => Err(StoreError::Database),
        }
    }

    /// Closes a transaction without its changes. `undone` says whether the
    /// database could be brought back; where it could not, the store is closed to
    /// all further work.
    pub fn rollback(&mut self, worker: u64, undone: bool)
        ensures
            final(self)@ == old(self)@,
            final(self).budget() == old(self).budget(),
            match old(self).barred(worker) {
                Some(_) => *final(self) == *old(self),
                None => if undone {
                    final(self).owner() is None && !final(self).is_poisoned()
                } else {
                    final(self).owner() == old(self).owner() && final(self).is_poisoned()
                },
            },
    {
        if self.lock(worker).is_err() {
            return;
        }
        if undone {
            self.owner = None;
        } else {
            self.poisoned = true;
        }
    }

    /// The own identity, or a fresh one that has to be written.
    pub fn identity_with(&self, fresh: Option<(UserId, [u8; 32])>) -> (result: Result<
        (ClientIdentity, Vec<ClientChange>),
        StoreError,
    >)
        ensures
            match (self@.identity, fresh) {
                (Some((user, seed)), _) => result matches Ok((identity, changes))
                    && identity.user() == user && identity.secret() == seed && changes.deep_view()
                    == unchanged(),
                (None, Some((user, seed))) => result matches Ok((identity, changes))
                    && identity.user() == user && identity.secret() == seed@ && changes.deep_view()
                    == seq![ClientChangeView::Identity { user, seed: seed@ }],
                (None, None) => result matches Err(error) && error == StoreError::InvalidData(
                    StoreDefect::IdentityRandomness,
                ),
            },
    {
        match &self.tables.identity {
            Some((user, seed)) => Ok((ClientIdentity::from_seed(*user, *seed), no_change())),
            None => match fresh {
                Some((user, seed)) => Ok(
                    (
                        ClientIdentity::from_seed(user, seed),
                        one_change(ClientChange::Identity { user, seed }),
                    ),
                ),
                None => Err(StoreError::InvalidData(StoreDefect::IdentityRandomness)),
            },
        }
    }

    /// The own identity. Where there is none, a random one is made that has to be
    /// written.
    pub fn identity(&self) -> (result: Result<(ClientIdentity, Vec<ClientChange>), StoreError>)
        ensures
            match result {
                Ok((identity, changes)) => match self@.identity {
                    Some((user, seed)) => identity.user() == user && identity.secret() == seed
                        && changes.deep_view() == unchanged(),
                    None => changes.deep_view() == seq![
                        ClientChangeView::Identity {
                            user: identity.user(),
                            seed: identity.secret(),
                        },
                    ],
                },
                Err(error) => self@.identity is None && error == StoreError::InvalidData(
                    StoreDefect::IdentityRandomness,
                ),
            },
    {
        if self.tables.identity.is_some() {
            return self.identity_with(None);
        }
        let fresh = match (UserId::new(), random_bytes::<32>()) {
            (Ok(user), Ok(seed)) => Some((user, seed)),
            _ => None,
        };
        self.identity_with(fresh)
    }

    /// What is written for a received message, and whether it is new.
    pub fn store_message(&self, message: &StoredRoomMessage) -> (result: Result<
        (bool, Vec<ClientChange>),
        StoreError,
    >)
        ensures
            match message_storing(self@, message.deep_view()) {
                Ok((new, changes)) => result matches Ok((got, list)) && got == new
                    && list.deep_view() == changes,
                Err(error) => result matches Err(got) && got == error,
            },
    {
        proof {
            bytes_deep_view(message.body);
        }
        if let Some(row) = self.tables.messages.get(&message.message_id) {
            if !row.room.same(&message.room_id) || row.sequence != message.sequence
                || !row.sender.same(&message.sender_id) || !same_slices(
                row.body.as_slice(),
                message.body.as_slice(),
            ) {
                return Err(StoreError::InvalidData(StoreDefect::EnvelopeReused));
            }
            return Ok((false, no_change()));
        }
        if message.sequence > MAX_POSITION {
            return Err(StoreError::InvalidData(StoreDefect::SequenceRange));
        }
        if self.tables.envelope_elsewhere(message.message_id, message.room_id, message.sequence) {
            return Err(StoreError::Database);
        }
        Ok(
            (
                true,
                one_change(
                    ClientChange::Message {
                        message_id: message.message_id,
                        room: message.room_id,
                        sequence: message.sequence,
                        sender: message.sender_id,
                        body: copy_bytes(&message.body),
                    },
                ),
            ),
        )
    }

    /// What is written for a message that comes back with its position: its whole
    /// envelope, in place of the one that is there.
    pub fn refresh_message(&self, message: &StoredRoomMessage) -> (result: Result<
        Vec<ClientChange>,
        StoreError,
    >)
        ensures
            gives(result, message_refreshing(self@, message.deep_view())),
    {
        proof {
            bytes_deep_view(message.body);
        }
        if message.sequence > MAX_POSITION {
            return Err(StoreError::InvalidData(StoreDefect::SequenceRange));
        }
        if self.tables.envelope_elsewhere(
            message.message_id,
            message.room_id,
            message.sequence,
        ) {
            return Err(StoreError::Database);
        }
        Ok(
            one_change(
                ClientChange::MessageRefreshed {
                    message_id: message.message_id,
                    room: message.room_id,
                    sequence: message.sequence,
                    sender: message.sender_id,
                    body: copy_bytes(&message.body),
                },
            ),
        )
    }

    /// What is written to journal a request when another one leaves the journal.
    pub(crate) fn save_outbox_after(
        &self,
        removed: MessageId,
        request_id: MessageId,
        kind: &str,
        message: &[u8],
    ) -> (result: Result<Vec<ClientChange>, StoreError>)
        ensures
            gives(
                result,
                outbox_saving(
                    removed_at(self@.outbox, outbox_index(self@.outbox, removed)),
                    request_id,
                    kind@,
                    message@,
                ),
            ),
    {
        self.save_outbox_except(self.tables.find_request(removed), request_id, kind, message)
    }

    fn save_outbox_except(
        &self,
        except: usize,
        request_id: MessageId,
        kind: &str,
        message: &[u8],
    ) -> (result: Result<Vec<ClientChange>, StoreError>)
        ensures
            gives(
                result,
                outbox_saving(removed_at(self@.outbox, except as nat), request_id, kind@, message@),
            ),
    {
        let at = self.tables.find_request_except(except, request_id);
        if at < self.tables.outbox.len() {
            let row = &self.tables.outbox[at];
            assert(row.deep_view() == self@.outbox[at as int]);
            if !row.kind.eq(&String::from_str(kind)) || !same_slices(
                row.message.as_slice(),
                message,
            ) {
                return Err(StoreError::InvalidData(StoreDefect::AttemptReused));
            }
            return Ok(no_change());
        }
        let last = self.tables.newest_rowid(except);
        if last == i64::MAX {
            return Err(StoreError::Database);
        }
        Ok(
            one_change(
                ClientChange::Outbox {
                    rowid: last + 1,
                    request_id,
                    kind: String::from_str(kind),
                    message: slice_to_vec(message),
                },
            ),
        )
    }

    /// What is written to journal a request.
    pub fn save_outbox(&self, request_id: MessageId, kind: &str, message: &[u8]) -> (result: Result<
        Vec<ClientChange>,
        StoreError,
    >)
        ensures
            gives(result, outbox_saving(self@.outbox, request_id, kind@, message@)),
    {
        let count = self.tables.outbox.len();
        assert(removed_at(self@.outbox, count as nat) == self@.outbox);
        self.save_outbox_except(count, request_id, kind, message)
    }

    /// What is written when a request was answered.
    pub fn remove_outbox(&self, request_id: MessageId) -> (changes: Vec<ClientChange>)
        ensures
            changes.deep_view() == seq![ClientChangeView::OutboxRemoved { request_id }],
    {
        one_change(ClientChange::OutboxRemoved { request_id })
    }

    /// The journaled request of an identifier.
    pub fn find_outbox(&self, id: MessageId) -> (found: Option<OutboxEntry>)
        ensures
            match found {
                Some(entry) => outbox_has(self@.outbox, id) && entry.deep_view() == entry_of(
                    self@.outbox[outbox_index(self@.outbox, id) as int],
                ),
                None => !outbox_has(self@.outbox, id),
            },
    {
        let at = self.tables.find_request(id);
        if at == self.tables.outbox.len() {
            return None;
        }
        let row = &self.tables.outbox[at];
        assert(row.deep_view() == self@.outbox[at as int]);
        Some(
            OutboxEntry {
                request_id: row.request_id,
                kind: row.kind.clone(),
                message: copy_bytes(&row.message),
            },
        )
    }

    /// The journaled requests behind a number, oldest first, as far as one page
    /// goes.
    pub fn outbox_page(&self, after: i64) -> (page: Vec<(i64, OutboxEntry)>)
        ensures
            page@.len() == page_of_outbox(self@.outbox, after).len(),
            forall|i: int|
                0 <= i < page@.len() ==> (#[trigger] page@[i]).0 == page_of_outbox(
                    self@.outbox,
                    after,
                )[i].rowid && page@[i].1.deep_view() == entry_of(
                    page_of_outbox(self@.outbox, after)[i],
                ),
    {
        let ghost all = self@.outbox;
        let ghost rows = all.filter(behind(after));
        let mut page: Vec<(i64, OutboxEntry)> = Vec::new();
        let mut bytes: usize = 0;
        let mut at: usize = 0;
        assert(all.take(0) =~= Seq::<OutboxRowView>::empty());
        assert(all.skip(0) =~= all);
        assert(rows.take(0) =~= Seq::<OutboxRowView>::empty());
        proof {
            reveal(Seq::filter);
        }
        while at < self.tables.outbox.len() && page.len() < ROW_LIMIT
            invariant
                at <= self.tables.outbox@.len(),
                all == self@.outbox,
                rows == all.filter(behind(after)),
                all.take(at as int).filter(behind(after)) == rows.take(page@.len() as int),
                page@.len() <= rows.len(),
                page@.len() <= ROW_LIMIT,
                page_rows(rows, 0) == page_rows(rows, page@.len()),
                bytes == message_bytes(rows.take(page@.len() as int)),
                page@.len() <= 1 || bytes <= OUTBOX_PAGE_BYTES,
                forall|i: int|
                    0 <= i < page@.len() ==> (#[trigger] page@[i]).0 == rows[i].rowid
                        && page@[i].1.deep_view() == entry_of(rows[i]),
            decreases self.tables.outbox.len() - at,
        {
            let row = &self.tables.outbox[at];
            assert(row.deep_view() == all[at as int]);
            proof {
                reveal(Seq::filter);
                assert(all.take(at + 1).drop_last() =~= all.take(at as int));
                assert(all.take(at + 1).last() == all[at as int]);
                filter_prefix(all, at + 1, behind(after));
            }
            if row.rowid > after {
                proof {
                    let taken = page@.len() as int;
                    assert(all.take(at + 1).filter(behind(after)) == rows.take(taken).push(
                        all[at as int],
                    ));
                    assert(rows.take(taken + 1) =~= rows.take(taken).push(all[at as int]));
                    assert(rows.take(taken + 1).drop_last() =~= rows.take(taken));
                    assert(rows[taken] == all[at as int]);
                }
                if page.len() > 0 && (bytes > OUTBOX_PAGE_BYTES || row.message.len()
                    > OUTBOX_PAGE_BYTES - bytes) {
                    return page;
                }
                bytes = bytes + row.message.len();
                page.push(
                    (
                        row.rowid,
                        OutboxEntry {
                            request_id: row.request_id,
                            kind: row.kind.clone(),
                            message: copy_bytes(&row.message),
                        },
                    ),
                );
            }
            at += 1;
        }
        proof {
            if at == all.len() {
                assert(all.take(at as int) =~= all);
            }
        }
        page
    }

    /// What is written when an envelope is processed.
    pub fn set_processing(
        &self,
        message_id: MessageId,
        state: Arrival,
    ) -> (changes: Vec<ClientChange>)
        ensures
            changes.deep_view() == seq![ClientChangeView::Processing { message_id, state }],
    {
        one_change(ClientChange::Processing { message_id, state })
    }

    /// Whether an envelope needs no more processing.
    pub fn is_settled(&self, message_id: MessageId) -> (settled: bool)
        ensures
            settled == (self@.processing.contains_key(message_id) && (
            self@.processing[message_id] == Arrival::Applied || self@.processing[message_id]
                == Arrival::Rejected)),
    {
        match self.tables.processing.get(&message_id) {
            Some(state) => *state == Arrival::Applied || *state == Arrival::Rejected,
            None => false,
        }
    }

    /// What is written for a message whose author is known.
    pub fn record_plaintext(
        &self,
        message: &StoredRoomMessage,
        author: UserId,
        plaintext: &[u8],
    ) -> (result: Result<Vec<ClientChange>, StoreError>)
        ensures
            gives(result, plaintext_recording(message.deep_view(), author, plaintext@)),
    {
        if message.sequence > MAX_POSITION {
            return Err(StoreError::Database);
        }
        Ok(
            one_change(
                ClientChange::History {
                    message_id: message.message_id,
                    room: message.room_id,
                    sequence: message.sequence,
                    author,
                    plaintext: slice_to_vec(plaintext),
                },
            ),
        )
    }

    /// The newest messages of a room before a position, oldest first.
    pub fn history(&self, room: RoomId, before: Option<u64>) -> (result: Result<
        Vec<AuthenticatedMessage>,
        StoreError,
    >)
        ensures
            match result {
                Ok(messages) => messages.deep_view() == page_of_history(self@.history, room, before)
                    && !(before matches Some(limit) && limit > MAX_POSITION),
                Err(error) => error == StoreError::Database && (before matches Some(limit) && limit
                    > MAX_POSITION),
            },
    {
        if let Some(limit) = before {
            if limit > MAX_POSITION {
                return Err(StoreError::Database);
            }
        }
        let ghost all = self@.history;
        let mut messages: Vec<AuthenticatedMessage> = Vec::new();
        let mut at: usize = 0;
        assert(all.take(0) =~= Seq::<HistoryRowView>::empty());
        proof {
            reveal(Seq::filter);
        }
        assert(messages.deep_view() =~= by_position(all.take(0).filter(in_room(room, before))));
        while at < self.tables.history.len()
            invariant
                at <= self.tables.history@.len(),
                all == self@.history,
                messages.deep_view() == by_position(
                    all.take(at as int).filter(in_room(room, before)),
                ),
            decreases self.tables.history.len() - at,
        {
            let row = &self.tables.history[at];
            assert(row.deep_view() == all[at as int]);
            proof {
                reveal(Seq::filter);
                assert(all.take(at + 1).drop_last() =~= all.take(at as int));
                assert(all.take(at + 1).last() == all[at as int]);
            }
            let wanted = row.room.same(&room) && match before {
                Some(limit) => row.sequence < limit,
                None => true,
            };
            if wanted {
                let ghost sorted = messages.deep_view();
                let place = first_later_message(&messages, row.sequence);
                messages.insert(
                    place,
                    AuthenticatedMessage {
                        message_id: row.message_id,
                        room_id: row.room,
                        sequence: row.sequence,
                        author: row.author,
                        plaintext: copy_bytes(&row.plaintext),
                    },
                );
                proof {
                    let chosen = all.take(at as int).filter(in_room(room, before));
                    assert(all.take(at + 1).filter(in_room(room, before)) == chosen.push(
                        all[at as int],
                    ));
                    assert(chosen.push(all[at as int]).drop_last() =~= chosen);
                    assert(messages.deep_view() =~= sorted.insert(place as int, all[at as int]));
                }
            }
            at += 1;
        }
        assert(all.take(at as int) =~= all);
        let ghost sorted = messages.deep_view();
        while messages.len() > ROW_LIMIT
            invariant
                messages@.len() <= sorted.len(),
                messages.deep_view() == sorted.skip(sorted.len() - messages@.len()),
                sorted.len() <= ROW_LIMIT ==> messages@.len() == sorted.len(),
                sorted.len() > ROW_LIMIT ==> messages@.len() >= ROW_LIMIT,
            decreases messages.len(),
        {
            let ghost before_removal = messages.deep_view();
            messages.remove(0);
            assert(messages.deep_view() =~= before_removal.skip(1));
            assert(before_removal.skip(1) =~= sorted.skip(sorted.len() - messages@.len()));
        }
        assert(sorted.skip(0) =~= sorted);
        Ok(messages)
    }

    /// What is written for receipts that are owed.
    pub fn record_pending_acks(&self, ids: &[(MessageId, RoomId)]) -> (changes: Vec<ClientChange>)
        ensures
            changes.deep_view() == ack_changes(ids@),
    {
        let mut changes: Vec<ClientChange> = Vec::new();
        let mut at: usize = 0;
        while at < ids.len()
            invariant
                at <= ids@.len(),
                changes@.len() == at,
                forall|i: int|
                    0 <= i < at ==> (#[trigger] changes@[i]).deep_view() == ack_changes(ids@)[i],
            decreases ids.len() - at,
        {
            changes.push(ClientChange::Ack { message_id: ids[at].0, room: ids[at].1 });
            at += 1;
        }
        assert(changes.deep_view() =~= ack_changes(ids@));
        changes
    }

    /// What is written for receipts that were taken.
    pub fn clear_pending_acks(&self, ids: &[MessageId]) -> (changes: Vec<ClientChange>)
        ensures
            changes.deep_view() == ack_clearings(ids@),
    {
        let mut changes: Vec<ClientChange> = Vec::new();
        let mut at: usize = 0;
        while at < ids.len()
            invariant
                at <= ids@.len(),
                changes@.len() == at,
                forall|i: int|
                    0 <= i < at ==> (#[trigger] changes@[i]).deep_view() == ack_clearings(ids@)[i],
            decreases ids.len() - at,
        {
            changes.push(ClientChange::AckCleared { message_id: ids[at] });
            at += 1;
        }
        assert(changes.deep_view() =~= ack_clearings(ids@));
        changes
    }

    /// The receipts that are owed, oldest first.
    pub fn load_pending_acks(&self) -> (ids: Vec<(MessageId, RoomId)>)
        ensures
            ids@ == self@.acks,
    {
        copy_acks(&self.tables.acks)
    }

    /// What is written for receipts of welcomes that are owed.
    pub fn record_pending_welcome_acks(&self, ids: &[(MessageId, RoomId)]) -> (changes: Vec<
        ClientChange,
    >)
        ensures
            changes.deep_view() == welcome_ack_changes(ids@),
    {
        let mut changes: Vec<ClientChange> = Vec::new();
        let mut at: usize = 0;
        while at < ids.len()
            invariant
                at <= ids@.len(),
                changes@.len() == at,
                forall|i: int|
                    0 <= i < at ==> (#[trigger] changes@[i]).deep_view() == welcome_ack_changes(ids@)[i],
            decreases ids.len() - at,
        {
            changes.push(ClientChange::WelcomeAck { welcome_id: ids[at].0, room: ids[at].1 });
            at += 1;
        }
        assert(changes.deep_view() =~= welcome_ack_changes(ids@));
        changes
    }

    /// What is written for receipts of welcomes that were taken.
    pub fn clear_pending_welcome_acks(&self, ids: &[MessageId]) -> (changes: Vec<ClientChange>)
        ensures
            changes.deep_view() == welcome_ack_clearings(ids@),
    {
        let mut changes: Vec<ClientChange> = Vec::new();
        let mut at: usize = 0;
        while at < ids.len()
            invariant
                at <= ids@.len(),
                changes@.len() == at,
                forall|i: int|
                    0 <= i < at ==> (#[trigger] changes@[i]).deep_view() == welcome_ack_clearings(
                        ids@,
                    )[i],
            decreases ids.len() - at,
        {
            changes.push(ClientChange::WelcomeAckCleared { welcome_id: ids[at] });
            at += 1;
        }
        assert(changes.deep_view() =~= welcome_ack_clearings(ids@));
        changes
    }

    /// The receipts of welcomes that are owed, oldest first.
    pub fn load_pending_welcome_acks(&self) -> (ids: Vec<(MessageId, RoomId)>)
        ensures
            ids@ == self@.welcome_acks,
    {
        copy_acks(&self.tables.welcome_acks)
    }

    /// What is written for the own group keys, which are never replaced.
    pub fn save_mls_identity(&self, public_key: &[u8], secret_key: &[u8]) -> (result: Result<
        Vec<ClientChange>,
        StoreError,
    >)
        ensures
            gives(result, mls_identity_saving(self@, public_key@, secret_key@)),
    {
        if let Some((public, secret)) = &self.tables.mls_identity {
            if !same_slices(public.as_slice(), public_key) || !same_slices(
                secret.as_slice(),
                secret_key,
            ) {
                return Err(StoreError::InvalidData(StoreDefect::MlsIdentityReplaced));
            }
            return Ok(no_change());
        }
        Ok(
            one_change(
                ClientChange::MlsIdentity {
                    public_key: slice_to_vec(public_key),
                    secret_key: slice_to_vec(secret_key),
                },
            ),
        )
    }

    /// The own group keys.
    pub fn load_mls_identity(&self) -> (keys: Option<StoredKeyPair>)
        ensures
            match keys {
                Some((public, secret)) => self@.mls_identity == Some((public@, secret@)),
                None => self@.mls_identity is None,
            },
    {
        match &self.tables.mls_identity {
            Some((public, secret)) => Some((copy_bytes(public), copy_bytes(secret))),
            None => None,
        }
    }

    /// What is written for a room.
    pub fn upsert_room(&self, room_id: RoomId, name: &str, origin: &str) -> (result: Result<
        Vec<ClientChange>,
        StoreError,
    >)
        ensures
            gives(result, room_upsert(room_id, name@, origin@)),
    {
        match normalize_room_name(name) {
            Ok(name) => Ok(
                one_change(
                    ClientChange::Room { room: room_id, name, origin: String::from_str(origin) },
                ),
            ),
            Err(_) => Err(StoreError::InvalidData(StoreDefect::RoomName)),
        }
    }

    /// The rooms in the order of their names.
    pub fn list_rooms(&self) -> (rooms: Vec<(RoomId, String, String)>)
        ensures
            rooms_in_order(self@, rooms@),
    {
        let mut sorted: Vec<(String, (RoomId, String))> = Vec::new();
        let count = self.tables.rooms.len();
        let ghost keys = self.tables.rooms.row_keys();
        let mut at: usize = 0;
        while at < count
            invariant
                at <= count,
                count == keys.len(),
                keys == self.tables.rooms.row_keys(),
                keys.no_duplicates(),
                in_text_order(sorted@),
                rooms_listed(self@.rooms, sorted@, keys.take(at as int)),
            decreases count - at,
        {
            let (room, row) = self.tables.rooms.at(at);
            let ghost before = sorted@;
            let place = insert_in_order(&mut sorted, row.name.clone(), (*room, row.origin.clone()));
            proof {
                assert(keys.take(at + 1) =~= keys.take(at as int).push(*room));
                assert(!keys.take(at as int).contains(*room)) by {
                    if keys.take(at as int).contains(*room) {
                        let k = keys.take(at as int).index_of(*room);
                        assert(keys[k] == keys[at as int]);
                    }
                }
                listing_grows(
                    self@.rooms,
                    before,
                    keys.take(at as int),
                    place as int,
                    sorted@[place as int],
                );
            }
            at += 1;
        }
        assert(keys.take(at as int) =~= keys);
        let mut rooms: Vec<(RoomId, String, String)> = Vec::new();
        let mut next: usize = 0;
        while next < sorted.len()
            invariant
                next <= sorted@.len(),
                rooms@.len() == next,
                forall|i: int|
                    0 <= i < next ==> (#[trigger] rooms@[i]).0 == sorted@[i].1.0 && rooms@[i].1@
                        == sorted@[i].0@ && rooms@[i].2@ == sorted@[i].1.1@,
            decreases sorted.len() - next,
        {
            rooms.push((sorted[next].1.0, sorted[next].0.clone(), sorted[next].1.1.clone()));
            next += 1;
        }
        proof {
            assert forall|room: RoomId| #[trigger] self@.rooms.contains_key(room) implies exists|i: int|
                0 <= i < rooms@.len() && (#[trigger] rooms@[i]).0 == room by {
                assert(keys.contains(room));
                let i = choose|i: int| 0 <= i < sorted@.len() && (#[trigger] sorted@[i]).1.0 == room;
                assert(rooms@[i].0 == room);
            }
            assert(rooms_in_order(self@, rooms@));
        }
        rooms
    }

    /// The name of a room.
    pub fn room_name(&self, room_id: RoomId) -> (name: Option<String>)
        ensures
            match name {
                Some(name) => self@.rooms.contains_key(room_id) && name@ == self@.rooms[room_id].name,
                None => !self@.rooms.contains_key(room_id),
            },
    {
        match self.tables.rooms.get(&room_id) {
            Some(row) => Some(row.name.clone()),
            None => None,
        }
    }

    /// Whether an envelope was received.
    pub fn has_message(&self, message_id: MessageId) -> (present: bool)
        ensures
            present == self@.messages.contains_key(message_id),
    {
        self.tables.messages.contains(&message_id)
    }
}

/// A copy of receipts.
fn copy_acks(acks: &Vec<(MessageId, RoomId)>) -> (copy: Vec<(MessageId, RoomId)>)
    ensures
        copy@ == acks@,
{
    let mut copy: Vec<(MessageId, RoomId)> = Vec::new();
    let mut at: usize = 0;
    while at < acks.len()
        invariant
            at <= acks@.len(),
            copy@ == acks@.take(at as int),
        decreases acks.len() - at,
    {
        copy.push((acks[at].0, acks[at].1));
        assert(acks@.take(at + 1) =~= acks@.take(at as int).push(acks@[at as int]));
        at += 1;
    }
    assert(acks@.take(at as int) =~= acks@);
    copy
}

/// Where the first message behind a position stands.
fn first_later_message(messages: &Vec<AuthenticatedMessage>, sequence: u64) -> (index: usize)
    ensures
        index == first_later(messages.deep_view(), sequence),
        index <= messages@.len(),
{
    let ghost rows = messages.deep_view();
    let mut at: usize = 0;
    assert(rows.skip(0) =~= rows);
    while at < messages.len()
        invariant
            at <= messages@.len(),
            rows == messages.deep_view(),
            first_later(rows, sequence) == at + first_later(rows.skip(at as int), sequence),
        decreases messages.len() - at,
    {
        if messages[at].sequence > sequence {
            return at;
        }
        assert(rows.skip(at as int).skip(1) =~= rows.skip(at + 1));
        at += 1;
    }
    at
}

/// What is chosen from the front of a list stands at the front of what is chosen
/// from the whole.
proof fn filter_prefix<A>(items: Seq<A>, count: int, wanted: spec_fn(A) -> bool)
    requires
        0 <= count <= items.len(),
    ensures
        items.take(count).filter(wanted).len() <= items.filter(wanted).len(),
        items.take(count).filter(wanted) == items.filter(wanted).take(
            items.take(count).filter(wanted).len() as int,
        ),
    decreases items.len(),
{
    reveal(Seq::filter);
    if count == items.len() {
        assert(items.take(count) =~= items);
        assert(
            items.filter(wanted).take(items.filter(wanted).len() as int) =~= items.filter(wanted)
        );
    } else {
        filter_prefix(items.drop_last(), count, wanted);
        assert(items.drop_last().take(count) =~= items.take(count));
        let front = items.take(count).filter(wanted);
        let shorter = items.drop_last().filter(wanted);
        assert(items.filter(wanted).take(front.len() as int) =~= shorter.take(front.len() as int));
    }
}

} // verus!
