//! Taking changes back: tables that cannot take all changes of a transaction are as
//! they were before it.
use vstd::prelude::*;
use crate::delivery::copy_bytes;
use crate::ids::{MessageId, RoomId, UserId};
use crate::relay::state::RelayTables;
use crate::relay::tables::{admitted, applied, Change, PackageRow, RelayView, TokenRow};

verus! {

/// What stood where a change was made.
#[allow(inconsistent_fields)]
pub(crate) enum Undo {
    Nothing,
    Identity { user: UserId },
    Token { hash: [u8; 32] },
    TokenConsumed { hash: [u8; 32], before: TokenRow },
    Room,
    Subscriber { room: RoomId, user: UserId },
    Package,
    PackageTaken { at: usize, before: PackageRow },
    Grant { recipient: UserId, requester: UserId },
    GrantRevoked { recipient: UserId, requester: UserId },
    Allocation,
    Event,
    Welcome,
    SenderUsage { user: UserId, before: Option<u64> },
    RoomUsage { room: RoomId, before: Option<u64> },
    Request { user: UserId, id: MessageId },
}

/// Charges with one put back that was there, or without it where none was.
spec fn put_back<K>(charges: Map<K, u64>, key: K, before: Option<u64>) -> Map<K, u64> {
    match before {
        Some(bytes) => charges.insert(key, bytes),
        None => charges.remove(key),
    }
}

/// Whether there is room for what is put back.
spec fn undoable(view: RelayView, undo: Undo) -> bool {
    match undo {
        Undo::Room => view.rooms.len() > 0,
        Undo::Package => view.packages.len() > 0,
        Undo::PackageTaken { at, .. } => at <= view.packages.len(),
        Undo::Allocation => view.allocations.len() > 0,
        Undo::Event => view.events.len() > 0,
        Undo::Welcome => view.welcomes.len() > 0,
        _ => true,
    }
}

/// The tables with what stood there before.
spec fn undone(view: RelayView, undo: Undo) -> RelayView {
    match undo {
        Undo::Nothing => view,
        Undo::Identity { user } => RelayView { identities: view.identities.remove(user), ..view },
        Undo::Token { hash } => RelayView { tokens: view.tokens.remove(hash), ..view },
        Undo::TokenConsumed { hash, before } => RelayView {
            tokens: view.tokens.insert(hash, before.deep_view()),
            ..view
        },
        Undo::Room => RelayView { rooms: view.rooms.drop_last(), ..view },
        Undo::Subscriber { room, user } => RelayView {
            subscribers: view.subscribers.remove((room, user)),
            ..view
        },
        Undo::Package => RelayView { packages: view.packages.drop_last(), ..view },
        Undo::PackageTaken { at, before } => RelayView {
            packages: view.packages.insert(at as int, before.deep_view()),
            ..view
        },
        Undo::Grant { recipient, requester } => RelayView {
            grants: view.grants.remove((recipient, requester)),
            ..view
        },
        Undo::GrantRevoked { recipient, requester } => RelayView {
            grants: view.grants.insert((recipient, requester)),
            ..view
        },
        Undo::Allocation => RelayView { allocations: view.allocations.drop_last(), ..view },
        Undo::Event => RelayView { events: view.events.drop_last(), ..view },
        Undo::Welcome => RelayView { welcomes: view.welcomes.drop_last(), ..view },
        Undo::SenderUsage { user, before } => RelayView {
            sender_usage: put_back(view.sender_usage, user, before),
            ..view
        },
        Undo::RoomUsage { room, before } => RelayView {
            room_usage: put_back(view.room_usage, room, before),
            ..view
        },
        Undo::Request { user, id } => RelayView {
            requests: view.requests.remove((user, id)),
            ..view
        },
    }
}

/// Whether what was saved before a change takes it back.
pub(crate) closed spec fn takes_back(view: RelayView, after: RelayView, undo: Undo) -> bool {
    undoable(after, undo) && undone(after, undo) == view
}

impl RelayTables {
    /// What takes a change back, once it was made.
    #[verifier::rlimit(40)]
    pub(crate) fn save(&self, change: &Change) -> (undo: Undo)
        ensures
            admitted(self@, change.deep_view()) ==> takes_back(
                self@,
                applied(self@, change.deep_view()),
                undo,
            ),
    {
        let ghost after = applied(self@, change.deep_view());
        let undo = match change {
            Change::Identity { user, .. } => Undo::Identity { user: *user },
            Change::Token { hash, .. } => Undo::Token { hash: *hash },
            Change::TokenConsumed { hash } => match self.tokens.get(hash) {
                Some(row) => Undo::TokenConsumed {
                    hash: *hash,
                    before: TokenRow {
                        user: row.user,
                        fingerprint: row.fingerprint,
                        expires: row.expires,
                        consumed: row.consumed,
                    },
                },
                None => Undo::Nothing,
            },
            Change::Room { .. } => Undo::Room,
            Change::Subscriber { room, user } => if self.subscribers.contains(&(*room, *user)) {
                Undo::Nothing
            } else {
                Undo::Subscriber { room: *room, user: *user }
            },
            Change::Package { .. } => Undo::Package,
            Change::PackageTaken { user } => {
                let at = self.oldest_package(*user);
                if at < self.packages.len() {
                    Undo::PackageTaken {
                        at,
                        before: PackageRow {
                            user: self.packages[at].user,
                            package: copy_bytes(&self.packages[at].package),
                        },
                    }
                } else {
                    Undo::Nothing
                }
            },
            Change::Grant { recipient, requester } => if self.grants.contains(
                &(*recipient, *requester),
            ) {
                Undo::Nothing
            } else {
                Undo::Grant { recipient: *recipient, requester: *requester }
            },
            Change::GrantRevoked { recipient, requester } => if self.grants.contains(
                &(*recipient, *requester),
            ) {
                Undo::GrantRevoked { recipient: *recipient, requester: *requester }
            } else {
                Undo::Nothing
            },
            Change::Allocation { .. } => Undo::Allocation,
            Change::Event { .. } => Undo::Event,
            Change::Welcome { .. } => Undo::Welcome,
            Change::SenderUsage { user, .. } => Undo::SenderUsage {
                user: *user,
                before: match self.sender_usage.get(user) {
                    Some(bytes) => Some(*bytes),
                    None => None,
                },
            },
            Change::RoomUsage { room, .. } => Undo::RoomUsage {
                room: *room,
                before: match self.room_usage.get(room) {
                    Some(bytes) => Some(*bytes),
                    None => None,
                },
            },
            Change::Request { user, id, .. } => Undo::Request { user: *user, id: *id },
        };
        proof {
            if admitted(self@, change.deep_view()) {
                assert(undone(after, undo).packages =~= self@.packages);
                assert(undone(after, undo) =~= self@);
            }
        }
        undo
    }

    /// Takes a change back.
    #[verifier::rlimit(40)]
    pub(crate) fn undo(&mut self, undo: Undo, Ghost(before): Ghost<RelayView>)
        requires
            takes_back(before, old(self)@, undo),
        ensures
            final(self)@ == before,
    {
        match undo {
            Undo::Nothing => {},
            Undo::Identity { user } => self.identities.remove(&user),
            Undo::Token { hash } => self.tokens.remove(&hash),
            Undo::TokenConsumed { hash, before } => self.tokens.insert(hash, before),
            Undo::Room => {
                let _ = self.rooms.pop();
                assert(self@.rooms =~= before.rooms);
            },
            Undo::Subscriber { room, user } => self.subscribers.remove(&(room, user)),
            Undo::Package => {
                let _ = self.packages.pop();
                assert(self@.packages =~= before.packages);
            },
            Undo::PackageTaken { at, before: row } => {
                self.packages.insert(at, row);
                assert(self@.packages =~= before.packages);
            },
            Undo::Grant { recipient, requester } => self.grants.remove(&(recipient, requester)),
            Undo::GrantRevoked { recipient, requester } => {
                self.grants.insert((recipient, requester))
            },
            Undo::Allocation => {
                let _ = self.allocations.pop();
                assert(self@.allocations =~= before.allocations);
            },
            Undo::Event => {
                let _ = self.events.pop();
                assert(self@.events =~= before.events);
            },
            Undo::Welcome => {
                let _ = self.welcomes.pop();
                assert(self@.welcomes =~= before.welcomes);
            },
            Undo::SenderUsage { user, before } => match before {
                Some(bytes) => self.sender_usage.insert(user, bytes),
                None => self.sender_usage.remove(&user),
            },
            Undo::RoomUsage { room, before } => match before {
                Some(bytes) => self.room_usage.insert(room, bytes),
                None => self.room_usage.remove(&room),
            },
            Undo::Request { user, id } => self.requests.remove(&(user, id)),
        }
        assert(self@ =~= before);
    }
}

} // verus!
