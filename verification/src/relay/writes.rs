//! What each request that writes does to the tables.
use vstd::prelude::*;
use crate::delivery::{
    copy_bytes, Append, AppendView, Event, EventView, WelcomeAttachmentView, WelcomeDelivery,
    WelcomeDeliveryView, MAX_KEY_PACKAGES_PER_PUBLISH, MAX_KEY_PACKAGE_BYTES,
    MAX_MLS_BLOB_BYTES, MAX_PAYLOAD,
};
use crate::ids::{MessageId, RoomId, UserId};
use crate::protocol::{encode_message, normalize_room_name, normalized_name};
use crate::relay::state::RelayTables;
use crate::relay::tables::{
    event_known, first_package, last_cursor, room_head, room_known, AllocationRowView, Change,
    ChangeView, Defect, PackageRowView, RelayView, RoomRowView, StorageError, MAX_NUMBER,
};
use crate::requests::{Rejection, Response, ResponseView};
use crate::wire::Wire;

verus! {

/// An answer, and the changes that come with it.
pub type Execution = Result<(ResponseView, Seq<ChangeView>), StorageError>;

/// Whether a result is the one that is wanted.
pub open spec fn is_execution(
    result: Result<(Response, Vec<Change>), StorageError>,
    wanted: Execution,
) -> bool {
    match wanted {
        Ok((response, changes)) => result matches Ok((got, list)) && got.deep_view() == response
            && list.deep_view() == changes,
        Err(error) => result matches Err(got) && got == error,
    }
}

/// A refusal changes nothing.
pub open spec fn refusal(reason: Rejection) -> Execution {
    Ok((ResponseView::Rejected(reason), Seq::empty()))
}

pub fn refuse(reason: Rejection) -> (result: Result<(Response, Vec<Change>), StorageError>)
    ensures
        is_execution(result, refusal(reason)),
{
    let changes: Vec<Change> = Vec::new();
    assert(changes.deep_view() =~= Seq::<ChangeView>::empty());
    Ok((Response::Rejected(reason), changes))
}

/// The most rooms that a user may create.
pub const MAX_ROOMS_PER_CREATOR: usize = 64;

/// The most packages that wait for one user's invitations.
pub const MAX_WAITING_PACKAGES: usize = 64;

/// How many rooms a user created.
pub open spec fn rooms_created(rooms: Seq<RoomRowView>, user: UserId) -> nat
    decreases rooms.len(),
{
    if rooms.len() == 0 {
        0
    } else {
        rooms_created(rooms.drop_last(), user) + if rooms.last().created_by == user {
            1nat
        } else {
            0nat
        }
    }
}

/// Creating a room: the name is put in order, the creator is within their number
/// of rooms, and they receive what comes into the room.
pub open spec fn creation(
    view: RelayView,
    user: UserId,
    name: Seq<char>,
    fresh: Option<RoomId>,
) -> Execution {
    match normalized_name(name) {
        Err(_) => refusal(Rejection::Invalid),
        Ok(name) => if rooms_created(view.rooms, user) >= MAX_ROOMS_PER_CREATOR {
            refusal(Rejection::Quota)
        } else {
            match fresh {
                None => Err(StorageError::Random),
                Some(room) => if room_known(view.rooms, room) {
                    Err(StorageError::Database)
                } else {
                    Ok(
                        (
                            ResponseView::RoomCreated { room },
                            seq![
                                ChangeView::Room { room, name, created_by: user },
                                ChangeView::Subscriber { room, user },
                            ],
                        ),
                    )
                },
            }
        },
    }
}

/// The bytes of some packages together.
pub open spec fn packages_size(packages: Seq<Seq<u8>>) -> nat
    decreases packages.len(),
{
    if packages.len() == 0 {
        0
    } else {
        packages_size(packages.drop_last()) + packages.last().len()
    }
}

/// How many packages of a user wait.
pub open spec fn packages_waiting(packages: Seq<PackageRowView>, user: UserId) -> nat
    decreases packages.len(),
{
    if packages.len() == 0 {
        0
    } else {
        packages_waiting(packages.drop_last(), user) + if packages.last().user == user {
            1nat
        } else {
            0nat
        }
    }
}

/// Whether packages may be offered at all.
pub open spec fn packages_valid(packages: Seq<Seq<u8>>) -> bool {
    &&& 0 < packages.len() <= MAX_KEY_PACKAGES_PER_PUBLISH
    &&& forall|i: int|
        0 <= i < packages.len() ==> 0 < (#[trigger] packages[i]).len() <= MAX_KEY_PACKAGE_BYTES
    &&& packages_size(packages) <= MAX_PAYLOAD
}

/// Offering key packages.
pub open spec fn publication(view: RelayView, user: UserId, packages: Seq<Seq<u8>>) -> Execution {
    if !packages_valid(packages) {
        refusal(Rejection::Invalid)
    } else if packages_waiting(view.packages, user) + packages.len() > MAX_WAITING_PACKAGES {
        refusal(Rejection::Quota)
    } else {
        Ok(
            (
                ResponseView::KeyPackagesPublished { count: packages.len() as u64 },
                Seq::new(
                    packages.len(),
                    |i: int| ChangeView::Package { user, package: packages[i] },
                ),
            ),
        )
    }
}

/// Saying who may take the own key packages.
pub open spec fn granting(user: UserId, requester: UserId, allowed: bool) -> Execution {
    Ok(
        (
            ResponseView::FetchGrantSet,
            if allowed {
                seq![ChangeView::Grant { recipient: user, requester }]
            } else {
                seq![ChangeView::GrantRevoked { recipient: user, requester }]
            },
        ),
    )
}

/// The most packages of one user that are handed out within an hour.
pub const MAX_ALLOCATIONS_PER_RECIPIENT: usize = 16;

/// The most of them to one requester.
pub const MAX_ALLOCATIONS_PER_PAIR: usize = 4;

/// How many of a recipient's packages were handed out within the last hour.
pub open spec fn recent_allocations(
    allocations: Seq<AllocationRowView>,
    recipient: UserId,
    now: i64,
) -> nat
    decreases allocations.len(),
{
    if allocations.len() == 0 {
        0
    } else {
        let last = allocations.last();
        recent_allocations(allocations.drop_last(), recipient, now) + if last.recipient == recipient
            && last.allocated_at > now - 3600 {
            1nat
        } else {
            0nat
        }
    }
}

/// How many of them to one requester.
pub open spec fn recent_pair_allocations(
    allocations: Seq<AllocationRowView>,
    recipient: UserId,
    requester: UserId,
    now: i64,
) -> nat
    decreases allocations.len(),
{
    if allocations.len() == 0 {
        0
    } else {
        let last = allocations.last();
        recent_pair_allocations(
            allocations.drop_last(),
            recipient,
            requester,
            now,
        ) + if last.recipient
            == recipient && last.requester == requester && last.allocated_at > now - 3600 {
            1nat
        } else {
            0nat
        }
    }
}

/// Taking a key package: it needs the recipient's grant, is limited in number,
/// and gives the oldest.
pub open spec fn reservation(
    view: RelayView,
    user: UserId,
    recipient: UserId,
    now: i64,
) -> Execution {
    if !view.grants.contains((recipient, user)) {
        refusal(Rejection::Unauthorized)
    } else if recent_allocations(view.allocations, recipient, now) >= MAX_ALLOCATIONS_PER_RECIPIENT
        || recent_pair_allocations(view.allocations, recipient, user, now)
        >= MAX_ALLOCATIONS_PER_PAIR {
        refusal(Rejection::Overloaded)
    } else if first_package(view.packages, recipient) >= view.packages.len() {
        refusal(Rejection::NotFound)
    } else {
        Ok(
            (
                ResponseView::KeyPackage {
                    recipient,
                    package: view.packages[first_package(view.packages, recipient) as int].package,
                },
                seq![
                    ChangeView::PackageTaken { user: recipient },
                    ChangeView::Allocation { requester: user, recipient, allocated_at: now },
                ],
            ),
        )
    }
}

/// The bytes of a welcome, zero without one.
pub open spec fn welcome_size(welcome: Option<WelcomeAttachmentView>) -> nat {
    match welcome {
        Some(attachment) => attachment.body.len(),
        None => 0,
    }
}

/// Whether an operation may extend a room at all.
pub open spec fn operation_valid(operation: AppendView) -> bool {
    &&& 0 < operation.body.len() <= MAX_MLS_BLOB_BYTES
    &&& operation.parent < MAX_NUMBER
    &&& operation.welcome matches Some(attachment) ==> 0 < attachment.body.len()
        <= MAX_MLS_BLOB_BYTES
    &&& operation.body.len() + welcome_size(operation.welcome) + 256 <= MAX_PAYLOAD
}

/// Where a room stands among the rooms, or behind all.
pub open spec fn first_room(rooms: Seq<RoomRowView>, room: RoomId) -> nat
    decreases rooms.len(),
{
    if rooms.len() == 0 || rooms[0].room == room {
        0
    } else {
        1 + first_room(rooms.skip(1), room)
    }
}

/// What waits for a new member.
pub open spec fn waiting_welcome(
    name: Seq<char>,
    user: UserId,
    id: MessageId,
    operation: AppendView,
    attachment: WelcomeAttachmentView,
) -> WelcomeDeliveryView {
    WelcomeDeliveryView {
        room_name: name,
        cursor: 0,
        event: id,
        room: operation.room,
        sequence: (operation.parent + 1) as u64,
        inviter: user,
        attachment,
    }
}

/// The changes for a new member, or none.
pub open spec fn welcoming(
    view: RelayView,
    user: UserId,
    id: MessageId,
    operation: AppendView,
) -> Result<Seq<ChangeView>, StorageError> {
    match operation.welcome {
        None => Ok(Seq::empty()),
        Some(attachment) => {
            let at = first_room(view.rooms, operation.room);
            if at >= view.rooms.len() {
                Err(StorageError::Database)
            } else {
                let delivery = waiting_welcome(
                    view.rooms[at as int].name,
                    user,
                    id,
                    operation,
                    attachment,
                );
                let record = WelcomeDelivery::encoded(delivery);
                if record.len() > MAX_PAYLOAD {
                    Err(StorageError::InvalidStoredData(Defect::DeliveryRecord))
                } else if last_cursor(view.welcomes) >= MAX_NUMBER {
                    Err(StorageError::Database)
                } else {
                    Ok(
                        seq![
                            ChangeView::Welcome {
                                cursor: (last_cursor(view.welcomes) + 1) as u64,
                                recipient: attachment.recipient,
                                record,
                            },
                            ChangeView::Subscriber {
                                room: operation.room,
                                user: attachment.recipient,
                            },
                        ],
                    )
                }
            }
        },
    }
}

/// Extending a room: only who receives its events may, only behind its head, and
/// under an identifier that no event has yet.
pub open spec fn extension(
    view: RelayView,
    user: UserId,
    id: MessageId,
    operation: AppendView,
) -> Execution {
    let head = room_head(view.events, operation.room);
    let event = EventView { id, sender: user, operation };
    if !view.subscribers.contains((operation.room, user)) {
        refusal(Rejection::Unauthorized)
    } else if !operation_valid(operation) {
        refusal(Rejection::Invalid)
    } else if head != operation.parent {
        Ok((ResponseView::HeadConflict { room: operation.room, head }, Seq::empty()))
    } else if event_known(view.events, id) {
        refusal(Rejection::RequestConflict)
    } else if Event::encoded(event).len() > MAX_PAYLOAD {
        Err(StorageError::InvalidStoredData(Defect::DeliveryRecord))
    } else {
        match welcoming(view, user, id, operation) {
            Err(error) => Err(error),
            Ok(more) => Ok(
                (
                    ResponseView::AppendAccepted { event },
                    seq![
                        ChangeView::Event {
                            room: operation.room,
                            sequence: (head + 1) as u64,
                            id,
                            sender: user,
                            record: Event::encoded(event),
                        },
                    ] + more,
                ),
            ),
        }
    }
}

impl RelayTables {
    fn rooms_by(&self, user: UserId) -> (count: usize)
        ensures
            count == rooms_created(self@.rooms, user),
    {
        let mut count: usize = 0;
        let mut at: usize = 0;
        assert(self@.rooms.take(0) =~= Seq::<RoomRowView>::empty());
        while at < self.rooms.len()
            invariant
                count <= at <= self.rooms@.len(),
                count == rooms_created(self@.rooms.take(at as int), user),
            decreases self.rooms.len() - at,
        {
            assert(self@.rooms.take(at + 1).drop_last() =~= self@.rooms.take(at as int));
            if self.rooms[at].created_by.same(&user) {
                count += 1;
            }
            at += 1;
        }
        assert(self@.rooms.take(at as int) =~= self@.rooms);
        count
    }

    /// Creates a room under a fresh identifier, if there is one.
    pub fn create_room(&self, user: UserId, name: &String, fresh: Option<RoomId>) -> (result: Result<
        (Response, Vec<Change>),
        StorageError,
    >)
        ensures
            is_execution(result, creation(self@, user, name@, fresh)),
    {
        let name = match normalize_room_name(name.as_str()) {
            Ok(name) => name,
            Err(_) => return refuse(Rejection::Invalid),
        };
        if self.rooms_by(user) >= MAX_ROOMS_PER_CREATOR {
            return refuse(Rejection::Quota);
        }
        let room = match fresh {
            Some(room) => room,
            None => return Err(StorageError::Random),
        };
        if self.find_room(room).is_some() {
            return Err(StorageError::Database);
        }
        let ghost text = name@;
        let mut changes: Vec<Change> = Vec::new();
        changes.push(Change::Room { room, name, created_by: user });
        changes.push(Change::Subscriber { room, user });
        assert(changes.deep_view() =~= seq![
            ChangeView::Room { room, name: text, created_by: user },
            ChangeView::Subscriber { room, user },
        ]);
        Ok((Response::RoomCreated { room }, changes))
    }

    fn waiting_packages(&self, user: UserId) -> (count: usize)
        ensures
            count == packages_waiting(self@.packages, user),
    {
        let mut count: usize = 0;
        let mut at: usize = 0;
        assert(self@.packages.take(0) =~= Seq::<PackageRowView>::empty());
        while at < self.packages.len()
            invariant
                count <= at <= self.packages@.len(),
                count == packages_waiting(self@.packages.take(at as int), user),
            decreases self.packages.len() - at,
        {
            assert(self@.packages.take(at + 1).drop_last() =~= self@.packages.take(at as int));
            if self.packages[at].user.same(&user) {
                count += 1;
            }
            at += 1;
        }
        assert(self@.packages.take(at as int) =~= self@.packages);
        count
    }

    /// Offers key packages.
    pub fn publish_packages(&self, user: UserId, packages: &Vec<Vec<u8>>) -> (result: Result<
        (Response, Vec<Change>),
        StorageError,
    >)
        ensures
            is_execution(result, publication(self@, user, packages.deep_view())),
    {
        let ghost values = packages.deep_view();
        if packages.len() == 0 || packages.len() > MAX_KEY_PACKAGES_PER_PUBLISH {
            return refuse(Rejection::Invalid);
        }
        let mut total: usize = 0;
        let mut at: usize = 0;
        assert(values.take(0) =~= Seq::<Seq<u8>>::empty());
        while at < packages.len()
            invariant
                at <= packages@.len() <= MAX_KEY_PACKAGES_PER_PUBLISH,
                values == packages.deep_view(),
                total == packages_size(values.take(at as int)),
                total <= at * 0x4000,
                forall|i: int|
                    0 <= i < at ==> 0 < (#[trigger] values[i]).len() <= MAX_KEY_PACKAGE_BYTES,
            decreases packages.len() - at,
        {
            let size = packages[at].len();
            assert(values[at as int].len() == size);
            assert(values.take(at + 1).drop_last() =~= values.take(at as int));
            if size == 0 || size > MAX_KEY_PACKAGE_BYTES {
                return refuse(Rejection::Invalid);
            }
            total += size;
            at += 1;
        }
        assert(values.take(at as int) =~= values);
        if total > MAX_PAYLOAD {
            return refuse(Rejection::Invalid);
        }
        let waiting = self.waiting_packages(user);
        if waiting > MAX_WAITING_PACKAGES || waiting + packages.len() > MAX_WAITING_PACKAGES {
            return refuse(Rejection::Quota);
        }
        let mut changes: Vec<Change> = Vec::new();
        let mut index: usize = 0;
        while index < packages.len()
            invariant
                index <= packages@.len(),
                values == packages.deep_view(),
                changes@.len() == index,
                forall|i: int|
                    0 <= i < index ==> (#[trigger] changes@[i]).deep_view() == (
                    ChangeView::Package { user, package: values[i] }),
            decreases packages.len() - index,
        {
            proof {
                crate::delivery::bytes_deep_view(packages@[index as int]);
            }
            changes.push(Change::Package { user, package: copy_bytes(&packages[index]) });
            index += 1;
        }
        assert(changes.deep_view() =~= Seq::new(
            values.len(),
            |i: int| ChangeView::Package { user, package: values[i] },
        ));
        Ok((Response::KeyPackagesPublished { count: packages.len() as u64 }, changes))
    }

    /// Records or revokes a grant.
    pub fn set_grant(&self, user: UserId, requester: UserId, allowed: bool) -> (result: Result<
        (Response, Vec<Change>),
        StorageError,
    >)
        ensures
            is_execution(result, granting(user, requester, allowed)),
    {
        let mut changes: Vec<Change> = Vec::new();
        if allowed {
            changes.push(Change::Grant { recipient: user, requester });
            assert(changes.deep_view() =~= seq![ChangeView::Grant { recipient: user, requester }]);
        } else {
            changes.push(Change::GrantRevoked { recipient: user, requester });
            assert(changes.deep_view() =~= seq![
                ChangeView::GrantRevoked { recipient: user, requester },
            ]);
        }
        Ok((Response::FetchGrantSet, changes))
    }

    fn allocations_since(&self, recipient: UserId, requester: UserId, now: i64) -> (counts: (
        usize,
        usize,
    ))
        ensures
            counts.0 == recent_allocations(self@.allocations, recipient, now),
            counts.1 == recent_pair_allocations(self@.allocations, recipient, requester, now),
    {
        let mut total: usize = 0;
        let mut pair: usize = 0;
        let mut at: usize = 0;
        assert(self@.allocations.take(0) =~= Seq::<AllocationRowView>::empty());
        while at < self.allocations.len()
            invariant
                total <= at <= self.allocations@.len(),
                pair <= at,
                total == recent_allocations(self@.allocations.take(at as int), recipient, now),
                pair == recent_pair_allocations(
                    self@.allocations.take(at as int),
                    recipient,
                    requester,
                    now,
                ),
            decreases self.allocations.len() - at,
        {
            assert(
                self@.allocations.take(at + 1).drop_last() =~= self@.allocations.take(at as int)
            );
            let row = &self.allocations[at];
            if row.recipient.same(&recipient) && row.allocated_at as i128 > now as i128 - 3600 {
                total += 1;
                if row.requester.same(&requester) {
                    pair += 1;
                }
            }
            at += 1;
        }
        assert(self@.allocations.take(at as int) =~= self@.allocations);
        (total, pair)
    }

    /// Takes the oldest key package of a user.
    pub fn reserve_package(&self, user: UserId, recipient: UserId, now: i64) -> (result: Result<
        (Response, Vec<Change>),
        StorageError,
    >)
        ensures
            is_execution(result, reservation(self@, user, recipient, now)),
    {
        if !self.grants.contains(&(recipient, user)) {
            return refuse(Rejection::Unauthorized);
        }
        let (total, pair) = self.allocations_since(recipient, user, now);
        if total >= MAX_ALLOCATIONS_PER_RECIPIENT || pair >= MAX_ALLOCATIONS_PER_PAIR {
            return refuse(Rejection::Overloaded);
        }
        let index = self.oldest_package(recipient);
        if index == self.packages.len() {
            return refuse(Rejection::NotFound);
        }
        let package = copy_bytes(&self.packages[index].package);
        proof {
            crate::delivery::bytes_deep_view(package);
        }
        let mut changes: Vec<Change> = Vec::new();
        changes.push(Change::PackageTaken { user: recipient });
        changes.push(Change::Allocation { requester: user, recipient, allocated_at: now });
        assert(changes.deep_view() =~= seq![
            ChangeView::PackageTaken { user: recipient },
            ChangeView::Allocation { requester: user, recipient, allocated_at: now },
        ]);
        Ok((Response::KeyPackage { recipient, package }, changes))
    }

    fn operation_allowed(operation: &Append) -> (valid: bool)
        ensures
            valid == operation_valid(operation.deep_view()),
    {
        let body = operation.body.len();
        let welcome: usize = match &operation.welcome {
            Some(attachment) => {
                let size = attachment.body.len();
                if size == 0 || size > MAX_MLS_BLOB_BYTES {
                    return false;
                }
                size
            },
            None => 0,
        };
        0 < body && body <= MAX_MLS_BLOB_BYTES && operation.parent < MAX_NUMBER && body + welcome
            + 256 <= MAX_PAYLOAD
    }

    fn room_index(&self, room: RoomId) -> (index: usize)
        ensures
            index == first_room(self@.rooms, room),
            index <= self@.rooms.len(),
    {
        let mut at: usize = 0;
        assert(self@.rooms.skip(0) =~= self@.rooms);
        while at < self.rooms.len()
            invariant
                at <= self.rooms@.len(),
                first_room(self@.rooms, room) == at + first_room(self@.rooms.skip(at as int), room),
            decreases self.rooms.len() - at,
        {
            if self.rooms[at].room.same(&room) {
                return at;
            }
            assert(self@.rooms.skip(at as int).skip(1) =~= self@.rooms.skip(at + 1));
            at += 1;
        }
        at
    }

    fn welcome_changes(&self, user: UserId, id: MessageId, operation: &Append) -> (result: Result<
        Vec<Change>,
        StorageError,
    >)
        requires
            operation.parent < MAX_NUMBER,
        ensures
            match welcoming(self@, user, id, operation.deep_view()) {
                Ok(changes) => result matches Ok(list) && list.deep_view() == changes,
                Err(error) => result matches Err(got) && got == error,
            },
    {
        let mut changes: Vec<Change> = Vec::new();
        match &operation.welcome {
            None => {
                assert(changes.deep_view() =~= Seq::<ChangeView>::empty());
                Ok(changes)
            },
            Some(attachment) => {
                let index = self.room_index(operation.room);
                if index >= self.rooms.len() {
                    return Err(StorageError::Database);
                }
                let delivery = WelcomeDelivery {
                    room_name: self.rooms[index].name.clone(),
                    cursor: 0,
                    event: id,
                    room: operation.room,
                    sequence: operation.parent + 1,
                    inviter: user,
                    attachment: attachment.clone(),
                };
                let record = match encode_message(&delivery) {
                    Ok(record) => record,
                    Err(_) => {
                        return Err(StorageError::InvalidStoredData(Defect::DeliveryRecord));
                    },
                };
                let cursor = self.newest_cursor();
                if cursor >= MAX_NUMBER {
                    return Err(StorageError::Database);
                }
                let ghost bytes = record@;
                changes.push(
                    Change::Welcome {
                        cursor: cursor + 1,
                        recipient: attachment.recipient,
                        record,
                    },
                );
                changes.push(
                    Change::Subscriber { room: operation.room, user: attachment.recipient },
                );
                assert(changes.deep_view() =~= seq![
                    ChangeView::Welcome {
                        cursor: (cursor + 1) as u64,
                        recipient: attachment.recipient,
                        record: bytes,
                    },
                    ChangeView::Subscriber { room: operation.room, user: attachment.recipient },
                ]);
                Ok(changes)
            },
        }
    }

    /// Extends a room.
    pub fn append_operation(&self, user: UserId, id: MessageId, operation: &Append) -> (result: Result<
        (Response, Vec<Change>),
        StorageError,
    >)
        ensures
            is_execution(result, extension(self@, user, id, operation.deep_view())),
    {
        if !self.subscribers.contains(&(operation.room, user)) {
            return refuse(Rejection::Unauthorized);
        }
        if !Self::operation_allowed(operation) {
            return refuse(Rejection::Invalid);
        }
        let head = self.head(operation.room);
        if head != operation.parent {
            let none: Vec<Change> = Vec::new();
            assert(none.deep_view() =~= Seq::<ChangeView>::empty());
            return Ok((Response::HeadConflict { room: operation.room, head }, none));
        }
        if self.knows_event(id) {
            return refuse(Rejection::RequestConflict);
        }
        let event = Event { id, sender: user, operation: operation.clone() };
        let record = match encode_message(&event) {
            Ok(record) => record,
            Err(_) => return Err(StorageError::InvalidStoredData(Defect::DeliveryRecord)),
        };
        let mut more = match self.welcome_changes(user, id, operation) {
            Ok(more) => more,
            Err(error) => return Err(error),
        };
        let ghost bytes = record@;
        let ghost rest = more.deep_view();
        let mut changes: Vec<Change> = Vec::new();
        changes.push(
            Change::Event { room: operation.room, sequence: head + 1, id, sender: user, record },
        );
        let ghost first = changes@;
        let ghost later = more@;
        changes.append(&mut more);
        proof {
            assert(changes@ =~= first + later);
            let wanted = seq![
                ChangeView::Event {
                    room: operation.room,
                    sequence: (head + 1) as u64,
                    id,
                    sender: user,
                    record: bytes,
                },
            ] + rest;
            assert(changes.deep_view() =~= wanted);
        }
        Ok((Response::AppendAccepted { event }, changes))
    }
}

} // verus!
