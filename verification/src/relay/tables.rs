//! The relay's tables, and the changes that they take.
use vstd::prelude::*;
use vstd::string::StringExecFns;
use crate::ids::{Ed25519PublicKeyBytes, MessageId, RoomId, UserId};

verus! {

/// What is wrong with something that was stored or configured.
#[derive(Clone, Copy, Debug, PartialEq, Eq, Structural)]
pub enum Defect {
    /// A delivery record cannot be read, or cannot be written.
    DeliveryRecord,
    /// A request has no encoding.
    UnencodableRequest,
    /// The database holds something else, or another version.
    Schema,
    /// The path of the database cannot be used.
    DatabasePath,
    /// A storage limit is not a number.
    StorageLimit,
    /// A runtime limit is not a number.
    RuntimeLimit,
    /// A runtime limit is out of range.
    RuntimeRange,
    /// A deadline is not a number.
    Deadline,
    /// A deadline is out of range.
    DeadlineRange,
    /// The payload budget is too small for one operation.
    PayloadBudget,
}

/// Why the relay could not do its part.
#[derive(Clone, Copy, Debug, PartialEq, Eq, Structural)]
pub enum StorageError {
    /// A file could not be examined.
    File,
    /// A constraint of the tables would break.
    Database,
    InvalidStoredData(Defect),
    LockPoisoned,
    /// The system gave no randomness.
    Random,
    IdentityKeyConflict,
    EnrollmentRequired,
}

impl Defect {
    /// What to tell a person.
    pub open spec fn text(self) -> Seq<char> {
        match self {
            Defect::DeliveryRecord => "invalid V9 delivery record"@,
            Defect::UnencodableRequest => "cannot encode request"@,
            Defect::Schema => "unsupported relay schema; choose a fresh database (no migrations)"@,
            Defect::DatabasePath => "invalid database path"@,
            Defect::StorageLimit => "invalid storage limit"@,
            Defect::RuntimeLimit => "invalid runtime limit"@,
            Defect::RuntimeRange => "runtime limit out of range"@,
            Defect::Deadline => "invalid deadline"@,
            Defect::DeadlineRange => "deadline out of range"@,
            Defect::PayloadBudget => "payload budget needs at least one 2 MiB operation"@,
        }
    }

    /// What to tell a person.
    pub fn message(&self) -> (text: &'static str)
        ensures
            text@ == self.text(),
    {
        match self {
            Defect::DeliveryRecord => "invalid V9 delivery record",
            Defect::UnencodableRequest => "cannot encode request",
            Defect::Schema => "unsupported relay schema; choose a fresh database (no migrations)",
            Defect::DatabasePath => "invalid database path",
            Defect::StorageLimit => "invalid storage limit",
            Defect::RuntimeLimit => "invalid runtime limit",
            Defect::RuntimeRange => "runtime limit out of range",
            Defect::Deadline => "invalid deadline",
            Defect::DeadlineRange => "deadline out of range",
            Defect::PayloadBudget => "payload budget needs at least one 2 MiB operation",
        }
    }
}

impl StorageError {
    /// What to tell a person.
    pub open spec fn text(self) -> Seq<char> {
        match self {
            StorageError::File => "relay file error"@,
            StorageError::Database => "relay database error"@,
            StorageError::InvalidStoredData(defect) => "invalid relay state: "@ + defect.text(),
            StorageError::LockPoisoned => "relay database lock poisoned"@,
            StorageError::Random => "randomness failure"@,
            StorageError::IdentityKeyConflict => "identity key conflict"@,
            StorageError::EnrollmentRequired => "private enrollment required"@,
        }
    }

    /// What to tell a person.
    pub fn message(&self) -> (text: String)
        ensures
            text@ == self.text(),
    {
        match self {
            StorageError::File => String::from_str("relay file error"),
            StorageError::Database => String::from_str("relay database error"),
            StorageError::InvalidStoredData(defect) => {
                let mut text = String::from_str("invalid relay state: ");
                text.append(defect.message());
                text
            },
            StorageError::LockPoisoned => String::from_str("relay database lock poisoned"),
            StorageError::Random => String::from_str("randomness failure"),
            StorageError::IdentityKeyConflict => String::from_str("identity key conflict"),
            StorageError::EnrollmentRequired => String::from_str("private enrollment required"),
        }
    }
}

/// A room.
pub struct RoomRow {
    pub room: RoomId,
    pub name: String,
    pub created_by: UserId,
}

/// What a [`RoomRow`] holds.
#[verifier::ext_equal]
pub struct RoomRowView {
    pub room: RoomId,
    pub name: Seq<char>,
    pub created_by: UserId,
}

impl DeepView for RoomRow {
    type V = RoomRowView;

    open spec fn deep_view(&self) -> RoomRowView {
        RoomRowView { room: self.room, name: self.name@, created_by: self.created_by }
    }
}

/// A key package that nobody has taken yet.
pub struct PackageRow {
    pub user: UserId,
    pub package: Vec<u8>,
}

/// What a [`PackageRow`] holds.
#[verifier::ext_equal]
pub struct PackageRowView {
    pub user: UserId,
    pub package: Seq<u8>,
}

impl DeepView for PackageRow {
    type V = PackageRowView;

    open spec fn deep_view(&self) -> PackageRowView {
        PackageRowView { user: self.user, package: self.package@ }
    }
}

/// A key package that was taken.
pub struct AllocationRow {
    pub requester: UserId,
    pub recipient: UserId,
    pub allocated_at: i64,
}

/// What a [`AllocationRow`] holds.
#[verifier::ext_equal]
pub struct AllocationRowView {
    pub requester: UserId,
    pub recipient: UserId,
    pub allocated_at: i64,
}

impl DeepView for AllocationRow {
    type V = AllocationRowView;

    open spec fn deep_view(&self) -> AllocationRowView {
        AllocationRowView {
            requester: self.requester,
            recipient: self.recipient,
            allocated_at: self.allocated_at,
        }
    }
}

/// An accepted event under its position in its room.
pub struct EventRow {
    pub room: RoomId,
    pub sequence: u64,
    pub id: MessageId,
    pub sender: UserId,
    pub record: Vec<u8>,
}

/// What a [`EventRow`] holds.
#[verifier::ext_equal]
pub struct EventRowView {
    pub room: RoomId,
    pub sequence: u64,
    pub id: MessageId,
    pub sender: UserId,
    pub record: Seq<u8>,
}

impl DeepView for EventRow {
    type V = EventRowView;

    open spec fn deep_view(&self) -> EventRowView {
        EventRowView {
            room: self.room,
            sequence: self.sequence,
            id: self.id,
            sender: self.sender,
            record: self.record@,
        }
    }
}

/// A welcome that waits for its recipient.
pub struct WelcomeRow {
    pub cursor: u64,
    pub recipient: UserId,
    pub record: Vec<u8>,
}

/// What a [`WelcomeRow`] holds.
#[verifier::ext_equal]
pub struct WelcomeRowView {
    pub cursor: u64,
    pub recipient: UserId,
    pub record: Seq<u8>,
}

impl DeepView for WelcomeRow {
    type V = WelcomeRowView;

    open spec fn deep_view(&self) -> WelcomeRowView {
        WelcomeRowView { cursor: self.cursor, recipient: self.recipient, record: self.record@ }
    }
}

/// What a request was answered.
pub struct RequestRow {
    pub hash: [u8; 32],
    pub response: Vec<u8>,
}

/// What a [`RequestRow`] holds.
#[verifier::ext_equal]
pub struct RequestRowView {
    pub hash: Seq<u8>,
    pub response: Seq<u8>,
}

impl DeepView for RequestRow {
    type V = RequestRowView;

    open spec fn deep_view(&self) -> RequestRowView {
        RequestRowView { hash: self.hash@, response: self.response@ }
    }
}

/// Who may enroll with a token, and until when.
pub struct TokenRow {
    pub user: UserId,
    pub fingerprint: [u8; 32],
    pub expires: i64,
    pub consumed: bool,
}

/// What a [`TokenRow`] holds.
#[verifier::ext_equal]
pub struct TokenRowView {
    pub user: UserId,
    pub fingerprint: Seq<u8>,
    pub expires: i64,
    pub consumed: bool,
}

impl DeepView for TokenRow {
    type V = TokenRowView;

    open spec fn deep_view(&self) -> TokenRowView {
        TokenRowView {
            user: self.user,
            fingerprint: self.fingerprint@,
            expires: self.expires,
            consumed: self.consumed,
        }
    }
}

/// One change of the tables.
pub enum Change {
    /// A user is registered.
    Identity { user: UserId, key: Ed25519PublicKeyBytes },
    /// An enrollment token is issued.
    Token { hash: [u8; 32], user: UserId, fingerprint: [u8; 32], expires: i64 },
    /// An enrollment token is used up.
    TokenConsumed { hash: [u8; 32] },
    /// A room is created.
    Room { room: RoomId, name: String, created_by: UserId },
    /// A user receives what comes into a room.
    Subscriber { room: RoomId, user: UserId },
    /// A key package is offered.
    Package { user: UserId, package: Vec<u8> },
    /// A user's oldest key package is taken.
    PackageTaken { user: UserId },
    /// A user may take a recipient's key packages.
    Grant { recipient: UserId, requester: UserId },
    /// And no longer may.
    GrantRevoked { recipient: UserId, requester: UserId },
    /// The taking of a key package is noted.
    Allocation { requester: UserId, recipient: UserId, allocated_at: i64 },
    /// A room is extended.
    Event { room: RoomId, sequence: u64, id: MessageId, sender: UserId, record: Vec<u8> },
    /// A welcome waits.
    Welcome { cursor: u64, recipient: UserId, record: Vec<u8> },
    /// A user is charged bytes.
    SenderUsage { user: UserId, bytes: u64 },
    /// A room is charged bytes.
    RoomUsage { room: RoomId, bytes: u64 },
    /// An answer is kept for retries.
    Request { user: UserId, id: MessageId, hash: [u8; 32], response: Vec<u8> },
}

/// What a [`Change`] holds.
#[verifier::ext_equal]
#[allow(inconsistent_fields)]
pub enum ChangeView {
    Identity { user: UserId, key: Ed25519PublicKeyBytes },
    Token { hash: [u8; 32], user: UserId, fingerprint: Seq<u8>, expires: i64 },
    TokenConsumed { hash: [u8; 32] },
    Room { room: RoomId, name: Seq<char>, created_by: UserId },
    Subscriber { room: RoomId, user: UserId },
    Package { user: UserId, package: Seq<u8> },
    PackageTaken { user: UserId },
    Grant { recipient: UserId, requester: UserId },
    GrantRevoked { recipient: UserId, requester: UserId },
    Allocation { requester: UserId, recipient: UserId, allocated_at: i64 },
    Event { room: RoomId, sequence: u64, id: MessageId, sender: UserId, record: Seq<u8> },
    Welcome { cursor: u64, recipient: UserId, record: Seq<u8> },
    SenderUsage { user: UserId, bytes: u64 },
    RoomUsage { room: RoomId, bytes: u64 },
    Request { user: UserId, id: MessageId, hash: Seq<u8>, response: Seq<u8> },
}

impl DeepView for Change {
    type V = ChangeView;

    open spec fn deep_view(&self) -> ChangeView {
        match self {
            Change::Identity { user, key } => ChangeView::Identity { user: *user, key: *key },
            Change::Token { hash, user, fingerprint, expires } => ChangeView::Token {
                hash: *hash,
                user: *user,
                fingerprint: fingerprint@,
                expires: *expires,
            },
            Change::TokenConsumed { hash } => ChangeView::TokenConsumed { hash: *hash },
            Change::Room { room, name, created_by } => ChangeView::Room {
                room: *room,
                name: name@,
                created_by: *created_by,
            },
            Change::Subscriber { room, user } => ChangeView::Subscriber {
                room: *room,
                user: *user,
            },
            Change::Package { user, package } => ChangeView::Package {
                user: *user,
                package: package@,
            },
            Change::PackageTaken { user } => ChangeView::PackageTaken { user: *user },
            Change::Grant { recipient, requester } => ChangeView::Grant {
                recipient: *recipient,
                requester: *requester,
            },
            Change::GrantRevoked { recipient, requester } => ChangeView::GrantRevoked {
                recipient: *recipient,
                requester: *requester,
            },
            Change::Allocation { requester, recipient, allocated_at } => ChangeView::Allocation {
                requester: *requester,
                recipient: *recipient,
                allocated_at: *allocated_at,
            },
            Change::Event { room, sequence, id, sender, record } => ChangeView::Event {
                room: *room,
                sequence: *sequence,
                id: *id,
                sender: *sender,
                record: record@,
            },
            Change::Welcome { cursor, recipient, record } => ChangeView::Welcome {
                cursor: *cursor,
                recipient: *recipient,
                record: record@,
            },
            Change::SenderUsage { user, bytes } => ChangeView::SenderUsage {
                user: *user,
                bytes: *bytes,
            },
            Change::RoomUsage { room, bytes } => ChangeView::RoomUsage {
                room: *room,
                bytes: *bytes,
            },
            Change::Request { user, id, hash, response } => ChangeView::Request {
                user: *user,
                id: *id,
                hash: hash@,
                response: response@,
            },
        }
    }
}

/// What the relay stores.
#[verifier::ext_equal]
pub struct RelayView {
    pub identities: Map<UserId, Ed25519PublicKeyBytes>,
    pub tokens: Map<[u8; 32], TokenRowView>,
    pub rooms: Seq<RoomRowView>,
    pub subscribers: Set<(RoomId, UserId)>,
    pub packages: Seq<PackageRowView>,
    pub grants: Set<(UserId, UserId)>,
    pub allocations: Seq<AllocationRowView>,
    pub events: Seq<EventRowView>,
    pub welcomes: Seq<WelcomeRowView>,
    pub sender_usage: Map<UserId, u64>,
    pub room_usage: Map<RoomId, u64>,
    pub requests: Map<(UserId, MessageId), RequestRowView>,
}

/// The largest number that a position, a cursor or a count of bytes may reach.
pub const MAX_NUMBER: u64 = 0x7fff_ffff_ffff_ffff;

/// The newest position in a room, or zero.
pub open spec fn room_head(events: Seq<EventRowView>, room: RoomId) -> u64
    decreases events.len(),
{
    if events.len() == 0 {
        0
    } else {
        let before = room_head(events.drop_last(), room);
        if events.last().room == room && events.last().sequence > before {
            events.last().sequence
        } else {
            before
        }
    }
}

/// Whether an event with this identifier is stored.
pub open spec fn event_known(events: Seq<EventRowView>, id: MessageId) -> bool {
    exists|i: int| 0 <= i < events.len() && (#[trigger] events[i]).id == id
}

/// Whether a room is stored.
pub open spec fn room_known(rooms: Seq<RoomRowView>, room: RoomId) -> bool {
    exists|i: int| 0 <= i < rooms.len() && (#[trigger] rooms[i]).room == room
}

/// The newest cursor, or zero.
pub open spec fn last_cursor(welcomes: Seq<WelcomeRowView>) -> u64
    decreases welcomes.len(),
{
    if welcomes.len() == 0 {
        0
    } else {
        let before = last_cursor(welcomes.drop_last());
        if welcomes.last().cursor > before {
            welcomes.last().cursor
        } else {
            before
        }
    }
}

/// Where the oldest package of a user stands, or behind all packages.
pub open spec fn first_package(packages: Seq<PackageRowView>, user: UserId) -> nat
    decreases packages.len(),
{
    if packages.len() == 0 || packages[0].user == user {
        0
    } else {
        1 + first_package(packages.skip(1), user)
    }
}

/// The bytes that a user was charged so far.
pub open spec fn charged<K>(usage: Map<K, u64>, key: K) -> u64 {
    if usage.contains_key(key) {
        usage[key]
    } else {
        0
    }
}

/// Whether the tables can take a change.
pub open spec fn admitted(view: RelayView, change: ChangeView) -> bool {
    match change {
        ChangeView::Identity { user, .. } => !view.identities.contains_key(user),
        ChangeView::Token { hash, .. } => !view.tokens.contains_key(hash),
        ChangeView::TokenConsumed { hash } => view.tokens.contains_key(hash),
        ChangeView::Room { room, .. } => !room_known(view.rooms, room),
        ChangeView::Subscriber { .. } => true,
        ChangeView::Package { .. } => true,
        ChangeView::PackageTaken { user } => first_package(view.packages, user)
            < view.packages.len(),
        ChangeView::Grant { .. } => true,
        ChangeView::GrantRevoked { .. } => true,
        ChangeView::Allocation { .. } => true,
        ChangeView::Event { room, sequence, id, .. } => room_head(view.events, room) < sequence
            <= MAX_NUMBER && !event_known(view.events, id),
        ChangeView::Welcome { cursor, .. } => last_cursor(view.welcomes) < cursor <= MAX_NUMBER,
        ChangeView::SenderUsage { user, bytes } => charged(view.sender_usage, user) + bytes
            <= MAX_NUMBER,
        ChangeView::RoomUsage { room, bytes } => charged(view.room_usage, room) + bytes
            <= MAX_NUMBER,
        ChangeView::Request { user, id, .. } => !view.requests.contains_key((user, id)),
    }
}

/// The tables after a change.
pub open spec fn applied(view: RelayView, change: ChangeView) -> RelayView {
    match change {
        ChangeView::Identity { user, key } => RelayView {
            identities: view.identities.insert(user, key),
            ..view
        },
        ChangeView::Token { hash, user, fingerprint, expires } => RelayView {
            tokens: view.tokens.insert(
                hash,
                TokenRowView { user, fingerprint, expires, consumed: false },
            ),
            ..view
        },
        ChangeView::TokenConsumed { hash } => RelayView {
            tokens: view.tokens.insert(hash, TokenRowView { consumed: true, ..view.tokens[hash] }),
            ..view
        },
        ChangeView::Room { room, name, created_by } => RelayView {
            rooms: view.rooms.push(RoomRowView { room, name, created_by }),
            ..view
        },
        ChangeView::Subscriber { room, user } => RelayView {
            subscribers: view.subscribers.insert((room, user)),
            ..view
        },
        ChangeView::Package { user, package } => RelayView {
            packages: view.packages.push(PackageRowView { user, package }),
            ..view
        },
        ChangeView::PackageTaken { user } => RelayView {
            packages: view.packages.remove(first_package(view.packages, user) as int),
            ..view
        },
        ChangeView::Grant { recipient, requester } => RelayView {
            grants: view.grants.insert((recipient, requester)),
            ..view
        },
        ChangeView::GrantRevoked { recipient, requester } => RelayView {
            grants: view.grants.remove((recipient, requester)),
            ..view
        },
        ChangeView::Allocation { requester, recipient, allocated_at } => RelayView {
            allocations: view.allocations.push(
                AllocationRowView { requester, recipient, allocated_at },
            ),
            ..view
        },
        ChangeView::Event { room, sequence, id, sender, record } => RelayView {
            events: view.events.push(EventRowView { room, sequence, id, sender, record }),
            ..view
        },
        ChangeView::Welcome { cursor, recipient, record } => RelayView {
            welcomes: view.welcomes.push(WelcomeRowView { cursor, recipient, record }),
            ..view
        },
        ChangeView::SenderUsage { user, bytes } => RelayView {
            sender_usage: view.sender_usage.insert(
                user,
                (charged(view.sender_usage, user) + bytes) as u64,
            ),
            ..view
        },
        ChangeView::RoomUsage { room, bytes } => RelayView {
            room_usage: view.room_usage.insert(
                room,
                (charged(view.room_usage, room) + bytes) as u64,
            ),
            ..view
        },
        ChangeView::Request { user, id, hash, response } => RelayView {
            requests: view.requests.insert((user, id), RequestRowView { hash, response }),
            ..view
        },
    }
}

/// Whether the tables can take changes one after the other.
pub open spec fn all_admitted(view: RelayView, changes: Seq<ChangeView>) -> bool
    decreases changes.len(),
{
    changes.len() == 0 || (all_admitted(view, changes.drop_last()) && admitted(
        all_applied(view, changes.drop_last()),
        changes.last(),
    ))
}

/// The tables after changes one after the other.
pub open spec fn all_applied(view: RelayView, changes: Seq<ChangeView>) -> RelayView
    decreases changes.len(),
{
    if changes.len() == 0 {
        view
    } else {
        applied(all_applied(view, changes.drop_last()), changes.last())
    }
}

/// What holds of the tables at all times: positions rise within a room, cursors
/// rise, and no room, event or package stands twice.
pub open spec fn in_order(view: RelayView) -> bool {
    &&& forall|i: int, j: int|
        0 <= i < j < view.events.len() && view.events[i].room == view.events[j].room ==> (
        #[trigger] view.events[i]).sequence < (#[trigger] view.events[j]).sequence
    &&& forall|i: int, j: int|
        0 <= i < j < view.events.len() ==> (#[trigger] view.events[i]).id != (
        #[trigger] view.events[j]).id
    &&& forall|i: int|
        0 <= i < view.events.len() ==> 0 < (#[trigger] view.events[i]).sequence <= MAX_NUMBER
    &&& forall|i: int, j: int|
        0 <= i < j < view.welcomes.len() ==> (#[trigger] view.welcomes[i]).cursor < (
        #[trigger] view.welcomes[j]).cursor
    &&& forall|i: int|
        0 <= i < view.welcomes.len() ==> 0 < (#[trigger] view.welcomes[i]).cursor <= MAX_NUMBER
    &&& forall|i: int, j: int|
        0 <= i < j < view.rooms.len() ==> (#[trigger] view.rooms[i]).room != (
        #[trigger] view.rooms[j]).room
}

/// Tables without rows.
pub open spec fn empty_view() -> RelayView {
    RelayView {
        identities: Map::empty(),
        tokens: Map::empty(),
        rooms: Seq::empty(),
        subscribers: Set::empty(),
        packages: Seq::empty(),
        grants: Set::empty(),
        allocations: Seq::empty(),
        events: Seq::empty(),
        welcomes: Seq::empty(),
        sender_usage: Map::empty(),
        room_usage: Map::empty(),
        requests: Map::empty(),
    }
}

/// A room's head is at least every position in it.
pub proof fn room_head_bounds(events: Seq<EventRowView>, room: RoomId, i: int)
    requires
        0 <= i < events.len(),
        events[i].room == room,
    ensures
        events[i].sequence <= room_head(events, room),
    decreases events.len(),
{
    if i < events.len() - 1 {
        room_head_bounds(events.drop_last(), room, i);
    }
}

/// A room's head is zero or the position of one of its events.
pub proof fn room_head_taken(events: Seq<EventRowView>, room: RoomId)
    ensures
        room_head(events, room) == 0 || exists|i: int|
            0 <= i < events.len() && (#[trigger] events[i]).room == room && events[i].sequence
                == room_head(events, room),
    decreases events.len(),
{
    if events.len() > 0 {
        room_head_taken(events.drop_last(), room);
        let before = events.drop_last();
        if exists|i: int|
            0 <= i < before.len() && (#[trigger] before[i]).room == room && before[i].sequence
                == room_head(before, room) {
            let i = choose|i: int|
                0 <= i < before.len() && (#[trigger] before[i]).room == room && before[i].sequence
                    == room_head(before, room);
            assert(events[i] == before[i]);
        }
        assert(events[events.len() - 1] == events.last());
    }
}

proof fn last_cursor_bounds(welcomes: Seq<WelcomeRowView>, i: int)
    requires
        0 <= i < welcomes.len(),
    ensures
        welcomes[i].cursor <= last_cursor(welcomes),
    decreases welcomes.len(),
{
    if i < welcomes.len() - 1 {
        last_cursor_bounds(welcomes.drop_last(), i);
    }
}

/// Every change that the tables take keeps them in order.
pub proof fn change_keeps_order(view: RelayView, change: ChangeView)
    requires
        in_order(view),
        admitted(view, change),
    ensures
        in_order(applied(view, change)),
{
    let after = applied(view, change);
    match change {
        ChangeView::Event { room, .. } => {
            assert forall|i: int| 0 <= i < view.events.len() && view.events[i].room == room implies (
            #[trigger] view.events[i]).sequence <= room_head(view.events, room) by {
                room_head_bounds(view.events, room, i);
            }
        },
        ChangeView::Welcome { .. } => {
            assert forall|i: int| 0 <= i < view.welcomes.len() implies (
            #[trigger] view.welcomes[i]).cursor <= last_cursor(view.welcomes) by {
                last_cursor_bounds(view.welcomes, i);
            }
        },
        _ => {},
    }
}

/// And so does every series of changes.
pub proof fn changes_keep_order(view: RelayView, changes: Seq<ChangeView>)
    requires
        in_order(view),
        all_admitted(view, changes),
    ensures
        in_order(all_applied(view, changes)),
    decreases changes.len(),
{
    if changes.len() > 0 {
        changes_keep_order(view, changes.drop_last());
        change_keeps_order(all_applied(view, changes.drop_last()), changes.last());
    }
}

} // verus!
