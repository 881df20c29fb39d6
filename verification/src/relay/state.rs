//! The tables in memory: looking rows up and taking changes.
use vstd::prelude::*;
use crate::ids::{Ed25519PublicKeyBytes, MessageId, RoomId, UserId};
use crate::relay::tables::{
    admitted, all_admitted, all_applied, applied, charged, empty_view, event_known, first_package,
    last_cursor, room_head, room_known, AllocationRow, Change, ChangeView, EventRow, EventRowView,
    PackageRow, RelayView, RequestRow, RoomRow, StorageError, TokenRow, WelcomeRow, WelcomeRowView,
    MAX_NUMBER,
};
use crate::relay::undo::{takes_back, Undo};
use crate::table::{KeySet, Table};

verus! {

/// The relay's tables.
pub struct RelayTables {
    pub(crate) identities: Table<UserId, Ed25519PublicKeyBytes>,
    pub(crate) tokens: Table<[u8; 32], TokenRow>,
    pub(crate) rooms: Vec<RoomRow>,
    pub(crate) subscribers: KeySet<(RoomId, UserId)>,
    pub(crate) packages: Vec<PackageRow>,
    pub(crate) grants: KeySet<(UserId, UserId)>,
    pub(crate) allocations: Vec<AllocationRow>,
    pub(crate) events: Vec<EventRow>,
    pub(crate) welcomes: Vec<WelcomeRow>,
    pub(crate) sender_usage: Table<UserId, u64>,
    pub(crate) room_usage: Table<RoomId, u64>,
    pub(crate) requests: Table<(UserId, MessageId), RequestRow>,
}

impl View for RelayTables {
    type V = RelayView;

    open(crate) spec fn view(&self) -> RelayView {
        RelayView {
            identities: self.identities.deep_view(),
            tokens: self.tokens.deep_view(),
            rooms: self.rooms.deep_view(),
            subscribers: self.subscribers@,
            packages: self.packages.deep_view(),
            grants: self.grants@,
            allocations: self.allocations.deep_view(),
            events: self.events.deep_view(),
            welcomes: self.welcomes.deep_view(),
            sender_usage: self.sender_usage.deep_view(),
            room_usage: self.room_usage.deep_view(),
            requests: self.requests.deep_view(),
        }
    }
}

/// Whether what was saved takes the first changes back, each from where it led.
spec fn all_take_back(start: RelayView, changes: Seq<ChangeView>, undos: Seq<Undo>) -> bool {
    forall|i: int|
        0 <= i < undos.len() ==> takes_back(
            all_applied(start, changes.take(i)),
            all_applied(start, changes.take(i + 1)),
            #[trigger] undos[i],
        )
}

impl RelayTables {
    /// Tables without rows.
    pub fn new() -> (tables: RelayTables)
        ensures
            tables@ == empty_view(),
    {
        let tables = RelayTables {
            identities: Table::new(),
            tokens: Table::new(),
            rooms: Vec::new(),
            subscribers: KeySet::new(),
            packages: Vec::new(),
            grants: KeySet::new(),
            allocations: Vec::new(),
            events: Vec::new(),
            welcomes: Vec::new(),
            sender_usage: Table::new(),
            room_usage: Table::new(),
            requests: Table::new(),
        };
        assert(tables@ =~= empty_view());
        tables
    }

    /// The newest position in a room, or zero.
    pub fn head(&self, room: RoomId) -> (head: u64)
        ensures
            head == room_head(self@.events, room),
    {
        let mut head: u64 = 0;
        let mut at: usize = 0;
        assert(self@.events.take(0) =~= Seq::<EventRowView>::empty());
        while at < self.events.len()
            invariant
                at <= self.events@.len(),
                head == room_head(self@.events.take(at as int), room),
            decreases self.events.len() - at,
        {
            assert(self@.events.take(at + 1).drop_last() =~= self@.events.take(at as int));
            if self.events[at].room.same(&room) && self.events[at].sequence > head {
                head = self.events[at].sequence;
            }
            at += 1;
        }
        assert(self@.events.take(at as int) =~= self@.events);
        head
    }

    /// Whether an event is stored.
    pub fn knows_event(&self, id: MessageId) -> (known: bool)
        ensures
            known == event_known(self@.events, id),
    {
        let mut at: usize = 0;
        while at < self.events.len()
            invariant
                at <= self.events@.len(),
                forall|i: int| 0 <= i < at ==> (#[trigger] self@.events[i]).id != id,
            decreases self.events.len() - at,
        {
            if self.events[at].id.same(&id) {
                assert(self@.events[at as int].id == id);
                return true;
            }
            at += 1;
        }
        false
    }

    /// Where a room stands.
    pub fn find_room(&self, room: RoomId) -> (found: Option<usize>)
        ensures
            match found {
                Some(i) => i < self@.rooms.len() && self@.rooms[i as int].room == room && forall|j: int|
                    0 <= j < i ==> (#[trigger] self@.rooms[j]).room != room,
                None => !room_known(self@.rooms, room),
            },
    {
        let mut at: usize = 0;
        while at < self.rooms.len()
            invariant
                at <= self.rooms@.len(),
                forall|i: int| 0 <= i < at ==> (#[trigger] self@.rooms[i]).room != room,
            decreases self.rooms.len() - at,
        {
            if self.rooms[at].room.same(&room) {
                return Some(at);
            }
            at += 1;
        }
        None
    }

    /// The newest cursor, or zero.
    pub fn newest_cursor(&self) -> (cursor: u64)
        ensures
            cursor == last_cursor(self@.welcomes),
    {
        let mut cursor: u64 = 0;
        let mut at: usize = 0;
        assert(self@.welcomes.take(0) =~= Seq::<WelcomeRowView>::empty());
        while at < self.welcomes.len()
            invariant
                at <= self.welcomes@.len(),
                cursor == last_cursor(self@.welcomes.take(at as int)),
            decreases self.welcomes.len() - at,
        {
            assert(self@.welcomes.take(at + 1).drop_last() =~= self@.welcomes.take(at as int));
            if self.welcomes[at].cursor > cursor {
                cursor = self.welcomes[at].cursor;
            }
            at += 1;
        }
        assert(self@.welcomes.take(at as int) =~= self@.welcomes);
        cursor
    }

    /// Where the oldest package of a user stands, or behind all packages.
    pub fn oldest_package(&self, user: UserId) -> (index: usize)
        ensures
            index == first_package(self@.packages, user),
            index <= self@.packages.len(),
            index < self@.packages.len() ==> self@.packages[index as int].user == user,
    {
        let mut at: usize = 0;
        assert(self@.packages.skip(0) =~= self@.packages);
        while at < self.packages.len()
            invariant
                at <= self.packages@.len(),
                first_package(self@.packages, user) == at + first_package(
                    self@.packages.skip(at as int),
                    user,
                ),
            decreases self.packages.len() - at,
        {
            if self.packages[at].user.same(&user) {
                return at;
            }
            assert(self@.packages.skip(at as int).skip(1) =~= self@.packages.skip(at + 1));
            at += 1;
        }
        at
    }

    /// The bytes that a user was charged so far.
    pub fn sender_charge(&self, user: UserId) -> (bytes: u64)
        ensures
            bytes == charged(self@.sender_usage, user),
    {
        match self.sender_usage.get(&user) {
            Some(bytes) => *bytes,
            None => 0,
        }
    }

    /// The bytes that a room was charged so far.
    pub fn room_charge(&self, room: RoomId) -> (bytes: u64)
        ensures
            bytes == charged(self@.room_usage, room),
    {
        match self.room_usage.get(&room) {
            Some(bytes) => *bytes,
            None => 0,
        }
    }

    /// Takes a change, or leaves the tables as they are where it would break a
    /// constraint.
    #[verifier::rlimit(40)]
    pub fn apply(&mut self, change: Change) -> (result: Result<(), StorageError>)
        ensures
            admitted(old(self)@, change.deep_view()) ==> result is Ok && final(self)@ == applied(
                old(self)@,
                change.deep_view(),
            ),
            !admitted(old(self)@, change.deep_view()) ==> result == Err::<(), StorageError>(
                StorageError::Database,
            ) && final(self)@ == old(self)@,
    {
        let ghost wanted = applied(self@, change.deep_view());
        match change {
            Change::Identity { user, key } => {
                if self.identities.contains(&user) {
                    return Err(StorageError::Database);
                }
                self.identities.insert(user, key);
            },
            Change::Token { hash, user, fingerprint, expires } => {
                if self.tokens.contains(&hash) {
                    return Err(StorageError::Database);
                }
                self.tokens.insert(hash, TokenRow { user, fingerprint, expires, consumed: false });
            },
            Change::TokenConsumed { hash } => {
                let row = match self.tokens.get(&hash) {
                    Some(row) => TokenRow {
                        user: row.user,
                        fingerprint: row.fingerprint,
                        expires: row.expires,
                        consumed: true,
                    },
                    None => return Err(StorageError::Database),
                };
                self.tokens.insert(hash, row);
            },
            Change::Room { room, name, created_by } => {
                if self.find_room(room).is_some() {
                    return Err(StorageError::Database);
                }
                self.rooms.push(RoomRow { room, name, created_by });
                assert(self@.rooms =~= wanted.rooms);
            },
            Change::Subscriber { room, user } => {
                self.subscribers.insert((room, user));
            },
            Change::Package { user, package } => {
                self.packages.push(PackageRow { user, package });
                assert(self@.packages =~= wanted.packages);
            },
            Change::PackageTaken { user } => {
                let index = self.oldest_package(user);
                if index == self.packages.len() {
                    return Err(StorageError::Database);
                }
                self.packages.remove(index);
                assert(self@.packages =~= wanted.packages);
            },
            Change::Grant { recipient, requester } => {
                self.grants.insert((recipient, requester));
            },
            Change::GrantRevoked { recipient, requester } => {
                self.grants.remove(&(recipient, requester));
            },
            Change::Allocation { requester, recipient, allocated_at } => {
                self.allocations.push(AllocationRow { requester, recipient, allocated_at });
                assert(self@.allocations =~= wanted.allocations);
            },
            Change::Event { room, sequence, id, sender, record } => {
                if self.head(room) >= sequence || sequence > MAX_NUMBER || self.knows_event(id) {
                    return Err(StorageError::Database);
                }
                self.events.push(EventRow { room, sequence, id, sender, record });
                assert(self@.events =~= wanted.events);
            },
            Change::Welcome { cursor, recipient, record } => {
                if self.newest_cursor() >= cursor || cursor > MAX_NUMBER {
                    return Err(StorageError::Database);
                }
                self.welcomes.push(WelcomeRow { cursor, recipient, record });
                assert(self@.welcomes =~= wanted.welcomes);
            },
            Change::SenderUsage { user, bytes } => {
                let before = self.sender_charge(user);
                if before > MAX_NUMBER || bytes > MAX_NUMBER - before {
                    return Err(StorageError::Database);
                }
                self.sender_usage.insert(user, before + bytes);
            },
            Change::RoomUsage { room, bytes } => {
                let before = self.room_charge(room);
                if before > MAX_NUMBER || bytes > MAX_NUMBER - before {
                    return Err(StorageError::Database);
                }
                self.room_usage.insert(room, before + bytes);
            },
            Change::Request { user, id, hash, response } => {
                if self.requests.contains(&(user, id)) {
                    return Err(StorageError::Database);
                }
                self.requests.insert((user, id), RequestRow { hash, response });
            },
        }
        assert(self@ =~= wanted);
        Ok(())
    }

    /// Takes changes back, from the last to the first.
    fn roll_back(
        &mut self,
        undos: Vec<Undo>,
        Ghost(start): Ghost<RelayView>,
        Ghost(changes): Ghost<Seq<ChangeView>>,
    )
        requires
            undos@.len() <= changes.len(),
            all_take_back(start, changes, undos@),
            old(self)@ == all_applied(start, changes.take(undos@.len() as int)),
        ensures
            final(self)@ == start,
    {
        let mut left = undos;
        while left.len() > 0
            invariant
                left@.len() <= changes.len(),
                all_take_back(start, changes, left@),
                self@ == all_applied(start, changes.take(left@.len() as int)),
            decreases left.len(),
        {
            let ghost taken = left@;
            if let Some(undo) = left.pop() {
                assert(taken[taken.len() - 1] == undo);
                assert(left@ =~= taken.drop_last());
                self.undo(undo, Ghost(all_applied(start, changes.take(taken.len() - 1))));
            }
        }
        assert(changes.take(0) =~= Seq::<ChangeView>::empty());
    }

    /// Takes changes one after the other, or none of them where one would break a
    /// constraint.
    pub fn commit(&mut self, changes: Vec<Change>) -> (result: Result<(), StorageError>)
        ensures
            all_admitted(old(self)@, changes.deep_view()) ==> result is Ok && final(self)@
                == all_applied(old(self)@, changes.deep_view()),
            !all_admitted(old(self)@, changes.deep_view()) ==> result == Err::<(), StorageError>(
                StorageError::Database,
            ) && final(self)@ == old(self)@,
    {
        let ghost all = changes.deep_view();
        let mut left = changes;
        let mut undos: Vec<Undo> = Vec::new();
        let ghost mut done: int = 0;
        assert(all.take(0) =~= Seq::<ChangeView>::empty());
        assert(all.skip(0) =~= all);
        while left.len() > 0
            invariant
                all == changes.deep_view(),
                0 <= done <= all.len(),
                left.deep_view() == all.skip(done),
                all_admitted(old(self)@, all.take(done)),
                self@ == all_applied(old(self)@, all.take(done)),
                undos@.len() == done,
                all_take_back(old(self)@, all, undos@),
            decreases left.len(),
        {
            let ghost before = left.deep_view();
            let change = left.remove(0);
            proof {
                assert(change.deep_view() == before[0]);
                assert(left.deep_view() =~= before.skip(1));
                assert(before.skip(1) =~= all.skip(done + 1));
                assert(all.take(done + 1).drop_last() =~= all.take(done));
                assert(all.take(done + 1).last() == all[done]);
            }
            let undo = self.save(&change);
            match self.apply(change) {
                Ok(()) => undos.push(undo),
                Err(error) => {
                    proof {
                        if all_admitted(old(self)@, all) {
                            all_admitted_prefix(old(self)@, all, done + 1);
                        }
                    }
                    self.roll_back(undos, Ghost(old(self)@), Ghost(all));
                    return Err(error);
                },
            }
            proof {
                done = done + 1;
            }
        }
        assert(all.take(done) =~= all);
        Ok(())
    }
}

proof fn all_admitted_prefix(view: RelayView, changes: Seq<ChangeView>, count: int)
    requires
        all_admitted(view, changes),
        0 <= count <= changes.len(),
    ensures
        all_admitted(view, changes.take(count)),
    decreases changes.len(),
{
    if count == changes.len() {
        assert(changes.take(count) =~= changes);
    } else {
        all_admitted_prefix(view, changes.drop_last(), count);
        assert(changes.drop_last().take(count) =~= changes.take(count));
    }
}

} // verus!
