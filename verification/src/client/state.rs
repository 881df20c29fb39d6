//! The client's tables in memory: looking rows up and taking changes.
use vstd::prelude::*;
use crate::client::tables::{
    ack_index, client_admitted, client_all_admitted, client_all_applied, client_applied,
    copy_option, empty_client, envelope_position_taken, history_index, intent_known, last_rowid, outbox_has,
    outbox_index, position_taken, released, removed_at, without_attempt, Arrival, ClientChange, ClientChangeView, ClientView,
    ContactRow, HistoryRow, InboxRow, IntentRow, IntentRowView, MessageRow, OutboxRow, OutboxRowView, RoomEntry,
    WelcomeInboxRow, MAX_POSITION,
};
use crate::client::undo::{takes_back, Undo};
use crate::delivery::copy_bytes;
use crate::ids::{MessageId, RoomId, UserId};
use crate::table::Table;

verus! {

/// Why the tables did not take a change: it would break a constraint.
#[derive(Clone, Copy, Debug, PartialEq, Eq, Structural)]
pub struct ConstraintViolation;

/// The client's tables.
pub struct ClientTables {
    pub(crate) identity: Option<(UserId, [u8; 32])>,
    pub(crate) mls_identity: Option<(Vec<u8>, Vec<u8>)>,
    pub(crate) contacts: Table<UserId, ContactRow>,
    pub(crate) cursors: Table<RoomId, u64>,
    pub(crate) inbox: Table<MessageId, InboxRow>,
    pub(crate) welcomes: Table<u64, WelcomeInboxRow>,
    pub(crate) welcome_cursor: u64,
    pub(crate) intents: Table<RoomId, IntentRow>,
    pub(crate) history: Vec<HistoryRow>,
    pub(crate) processing: Table<MessageId, Arrival>,
    pub(crate) messages: Table<MessageId, MessageRow>,
    pub(crate) outbox: Vec<OutboxRow>,
    pub(crate) acks: Vec<(MessageId, RoomId)>,
    pub(crate) welcome_acks: Vec<(MessageId, RoomId)>,
    pub(crate) rooms: Table<RoomId, RoomEntry>,
}

impl View for ClientTables {
    type V = ClientView;

    open(crate) spec fn view(&self) -> ClientView {
        ClientView {
            identity: match self.identity {
                Some((user, seed)) => Some((user, seed@)),
                None => None,
            },
            mls_identity: match self.mls_identity {
                Some((public_key, secret_key)) => Some((public_key@, secret_key@)),
                None => None,
            },
            contacts: self.contacts.deep_view(),
            cursors: self.cursors.deep_view(),
            inbox: self.inbox.deep_view(),
            welcomes: self.welcomes.deep_view(),
            welcome_cursor: self.welcome_cursor,
            intents: self.intents.deep_view(),
            history: self.history.deep_view(),
            processing: self.processing.deep_view(),
            messages: self.messages.deep_view(),
            outbox: self.outbox.deep_view(),
            acks: self.acks@,
            welcome_acks: self.welcome_acks@,
            rooms: self.rooms.deep_view(),
        }
    }
}

/// Where a receipt stands, or behind all.
pub(crate) fn find_ack(acks: &Vec<(MessageId, RoomId)>, id: MessageId) -> (index: usize)
    ensures
        index == ack_index(acks@, id),
        index <= acks@.len(),
{
    let mut at: usize = 0;
    assert(acks@.skip(0) =~= acks@);
    while at < acks.len()
        invariant
            at <= acks@.len(),
            ack_index(acks@, id) == at + ack_index(acks@.skip(at as int), id),
        decreases acks.len() - at,
    {
        if acks[at].0.same(&id) {
            return at;
        }
        assert(acks@.skip(at as int).skip(1) =~= acks@.skip(at + 1));
        at += 1;
    }
    at
}

/// Whether what was saved takes the first changes back, each from where it led.
spec fn all_take_back(
    start: ClientView,
    changes: Seq<ClientChangeView>,
    undos: Seq<Undo>,
) -> bool {
    forall|i: int|
        0 <= i < undos.len() ==> takes_back(
            client_all_applied(start, changes.take(i)),
            client_all_applied(start, changes.take(i + 1)),
            #[trigger] undos[i],
        )
}

impl ClientTables {
    /// Tables without rows.
    pub fn new() -> (tables: ClientTables)
        ensures
            tables@ == empty_client(),
    {
        let tables = ClientTables {
            identity: None,
            mls_identity: None,
            contacts: Table::new(),
            cursors: Table::new(),
            inbox: Table::new(),
            welcomes: Table::new(),
            welcome_cursor: 0,
            intents: Table::new(),
            history: Vec::new(),
            processing: Table::new(),
            messages: Table::new(),
            outbox: Vec::new(),
            acks: Vec::new(),
            welcome_acks: Vec::new(),
            rooms: Table::new(),
        };
        assert(tables@ =~= empty_client());
        tables
    }

    /// Where a request stands in the outbox, or behind all.
    pub(crate) fn find_request(&self, id: MessageId) -> (index: usize)
        ensures
            index == outbox_index(self@.outbox, id),
            index <= self@.outbox.len(),
            index < self@.outbox.len() ==> self@.outbox[index as int].request_id == id,
    {
        let mut at: usize = 0;
        assert(self@.outbox.skip(0) =~= self@.outbox);
        while at < self.outbox.len()
            invariant
                at <= self.outbox@.len(),
                outbox_index(self@.outbox, id) == at + outbox_index(
                    self@.outbox.skip(at as int),
                    id,
                ),
            decreases self.outbox.len() - at,
        {
            if self.outbox[at].request_id.same(&id) {
                return at;
            }
            assert(self@.outbox.skip(at as int).skip(1) =~= self@.outbox.skip(at + 1));
            at += 1;
        }
        at
    }

    /// Where a request stands among those other than the one at an index, or
    /// behind all.
    pub(crate) fn find_request_except(&self, except: usize, id: MessageId) -> (index: usize)
        ensures
            index <= self@.outbox.len(),
            ({
                let left = removed_at(self@.outbox, except as nat);
                if index < self@.outbox.len() {
                    outbox_has(left, id) && left[outbox_index(left, id) as int]
                        == self@.outbox[index as int]
                } else {
                    !outbox_has(left, id)
                }
            }),
    {
        let ghost rows = self@.outbox;
        let ghost left = removed_at(rows, except as nat);
        let ghost mut seen: int = 0;
        let mut at: usize = 0;
        assert(left.skip(0) =~= left);
        while at < self.outbox.len()
            invariant
                at <= self.outbox@.len(),
                rows == self@.outbox,
                left == removed_at(rows, except as nat),
                seen == (if at > except {
                    at - 1
                } else {
                    at as int
                }),
                outbox_index(left, id) == seen + outbox_index(left.skip(seen), id),
            decreases self.outbox.len() - at,
        {
            if at != except {
                assert(left[seen] == rows[at as int]);
                assert(left.skip(seen)[0] == left[seen]);
                if self.outbox[at].request_id.same(&id) {
                    return at;
                }
                assert(left.skip(seen).skip(1) =~= left.skip(seen + 1));
                proof {
                    seen = seen + 1;
                }
            }
            at += 1;
        }
        at
    }

    /// Where a message stands in the history, or behind all.
    pub(crate) fn find_history(&self, id: MessageId) -> (index: usize)
        ensures
            index == history_index(self@.history, id),
            index <= self@.history.len(),
    {
        let mut at: usize = 0;
        assert(self@.history.skip(0) =~= self@.history);
        while at < self.history.len()
            invariant
                at <= self.history@.len(),
                history_index(self@.history, id) == at + history_index(
                    self@.history.skip(at as int),
                    id,
                ),
            decreases self.history.len() - at,
        {
            if self.history[at].message_id.same(&id) {
                return at;
            }
            assert(self@.history.skip(at as int).skip(1) =~= self@.history.skip(at + 1));
            at += 1;
        }
        at
    }

    /// The number of the newest request other than the one at an index, or zero.
    pub(crate) fn newest_rowid(&self, except: usize) -> (rowid: i64)
        ensures
            rowid == last_rowid(removed_at(self@.outbox, except as nat)),
    {
        let ghost rows = self@.outbox;
        let ghost left = removed_at(rows, except as nat);
        let mut rowid: i64 = 0;
        let mut at: usize = 0;
        assert(rows.take(0) =~= Seq::<OutboxRowView>::empty());
        assert(removed_at(rows.take(0), except as nat) =~= Seq::<OutboxRowView>::empty());
        while at < self.outbox.len()
            invariant
                at <= self.outbox@.len(),
                rows == self@.outbox,
                rowid == last_rowid(removed_at(rows.take(at as int), except as nat)),
            decreases self.outbox.len() - at,
        {
            proof {
                let before = removed_at(rows.take(at as int), except as nat);
                let after = removed_at(rows.take(at + 1), except as nat);
                if at == except {
                    assert(after =~= before);
                } else {
                    assert(after.drop_last() =~= before);
                    assert(after.last() == rows[at as int]);
                }
            }
            if at != except && self.outbox[at].rowid > rowid {
                rowid = self.outbox[at].rowid;
            }
            at += 1;
        }
        assert(rows.take(at as int) =~= rows);
        rowid
    }

    /// The event at a position of a room, if there is one.
    pub(crate) fn event_at(
        &self,
        room: RoomId,
        sequence: u64,
    ) -> (found: Option<(&MessageId, &InboxRow)>)
        ensures
            match found {
                Some((id, row)) => self@.inbox.contains_key(*id) && self@.inbox[*id] == row.deep_view()
                    && row.room == room && row.sequence == sequence,
                None => !position_taken(self@.inbox, room, sequence),
            },
    {
        let count = self.inbox.len();
        let ghost keys = self.inbox.row_keys();
        let mut at: usize = 0;
        while at < count
            invariant
                at <= count,
                count == keys.len(),
                keys == self.inbox.row_keys(),
                forall|i: int|
                    0 <= i < at ==> {
                        let row = self@.inbox[#[trigger] keys[i]];
                        !(row.room == room && row.sequence == sequence)
                    },
            decreases count - at,
        {
            let (id, row) = self.inbox.at(at);
            if row.room.same(&room) && row.sequence == sequence {
                return Some((id, row));
            }
            at += 1;
        }
        assert forall|id: MessageId| #[trigger] self@.inbox.contains_key(id) implies !(
        self@.inbox[id].room == room && self@.inbox[id].sequence == sequence) by {
            assert(keys.contains(id));
        }
        None
    }

    /// Whether an intent has an identifier.
    pub(crate) fn knows_intent(&self, id: MessageId) -> (known: bool)
        ensures
            known == intent_known(self@.intents, id),
    {
        let count = self.intents.len();
        let ghost keys = self.intents.row_keys();
        let mut at: usize = 0;
        while at < count
            invariant
                at <= count,
                count == keys.len(),
                keys == self.intents.row_keys(),
                forall|i: int| 0 <= i < at ==> self@.intents[#[trigger] keys[i]].id != id,
            decreases count - at,
        {
            let (_, row) = self.intents.at(at);
            if row.id.same(&id) {
                return true;
            }
            at += 1;
        }
        assert forall|room: RoomId| #[trigger] self@.intents.contains_key(room) implies self@.intents[room].id != id by {
            assert(keys.contains(room));
        }
        false
    }

    /// Whether another envelope stands at a position of a room.
    pub(crate) fn envelope_elsewhere(
        &self,
        except: MessageId,
        room: RoomId,
        sequence: u64,
    ) -> (taken: bool)
        ensures
            taken == envelope_position_taken(self@.messages, except, room, sequence),
    {
        if sequence == 0 {
            return false;
        }
        let count = self.messages.len();
        let ghost keys = self.messages.row_keys();
        let mut at: usize = 0;
        while at < count
            invariant
                at <= count,
                sequence > 0,
                count == keys.len(),
                keys == self.messages.row_keys(),
                forall|i: int|
                    0 <= i < at ==> {
                        let row = self@.messages[#[trigger] keys[i]];
                        !(keys[i] != except && row.room == room && row.sequence == sequence)
                    },
            decreases count - at,
        {
            let (id, row) = self.messages.at(at);
            if !id.same(&except) && row.room.same(&room) && row.sequence == sequence {
                return true;
            }
            at += 1;
        }
        assert forall|id: MessageId| #[trigger] self@.messages.contains_key(id) implies !(id != except
            && self@.messages[id].room == room && self@.messages[id].sequence == sequence) by {
            assert(keys.contains(id));
        }
        false
    }

    fn apply_identity(&mut self, change: ClientChange) -> (result: Result<(), ConstraintViolation>)
        requires
            change is Identity || change is MlsIdentity || change is Contact || change is Cursor
                || change is Processing || change is Room,
        ensures
            client_admitted(old(self)@, change.deep_view()) ==> result is Ok && final(self)@
                == client_applied(old(self)@, change.deep_view()),
            !client_admitted(old(self)@, change.deep_view()) ==> result is Err && final(self)@
                == old(self)@,
    {
        let ghost wanted = client_applied(self@, change.deep_view());
        match change {
            ClientChange::Identity { user, seed } => {
                if self.identity.is_some() {
                    return Err(ConstraintViolation);
                }
                self.identity = Some((user, seed));
            },
            ClientChange::MlsIdentity { public_key, secret_key } => {
                if self.mls_identity.is_some() {
                    return Err(ConstraintViolation);
                }
                self.mls_identity = Some((public_key, secret_key));
            },
            ClientChange::Contact { user, mls_key, card } => {
                if self.contacts.contains(&user) {
                    return Err(ConstraintViolation);
                }
                self.contacts.insert(user, ContactRow { mls_key, card });
            },
            ClientChange::Cursor { room, sequence } => {
                if sequence > MAX_POSITION {
                    return Err(ConstraintViolation);
                }
                self.cursors.insert(room, sequence);
            },
            ClientChange::Processing { message_id, state } => {
                self.processing.insert(message_id, state);
            },
            ClientChange::Room { room, name, origin } => {
                let origin = match self.rooms.get(&room) {
                    Some(row) => row.origin.clone(),
                    None => origin,
                };
                self.rooms.insert(room, RoomEntry { name, origin });
            },
            _ => {},
        }
        assert(self@ =~= wanted);
        Ok(())
    }

    fn apply_delivery(&mut self, change: ClientChange) -> (result: Result<(), ConstraintViolation>)
        requires
            change is Inbox || change is InboxState || change is Welcome || change is WelcomeState
                || change is WelcomeCursor,
        ensures
            client_admitted(old(self)@, change.deep_view()) ==> result is Ok && final(self)@
                == client_applied(old(self)@, change.deep_view()),
            !client_admitted(old(self)@, change.deep_view()) ==> result is Err && final(self)@
                == old(self)@,
    {
        let ghost wanted = client_applied(self@, change.deep_view());
        match change {
            ClientChange::Inbox { id, room, sequence, record } => {
                if sequence > MAX_POSITION || self.inbox.contains(&id) || self.event_at(
                    room,
                    sequence,
                ).is_some() {
                    return Err(ConstraintViolation);
                }
                self.inbox.insert(
                    id,
                    InboxRow { room, sequence, record, state: Arrival::Received },
                );
            },
            ClientChange::InboxState { id, state } => {
                let row = match self.inbox.get(&id) {
                    Some(row) => Some(
                        InboxRow {
                            room: row.room,
                            sequence: row.sequence,
                            record: copy_bytes(&row.record),
                            state,
                        },
                    ),
                    None => None,
                };
                if let Some(row) = row {
                    self.inbox.insert(id, row);
                }
            },
            ClientChange::Welcome { cursor, record } => {
                if cursor > MAX_POSITION || self.welcomes.contains(&cursor) {
                    return Err(ConstraintViolation);
                }
                self.welcomes.insert(cursor, WelcomeInboxRow { record, state: Arrival::Received });
            },
            ClientChange::WelcomeState { cursor, state } => {
                let row = match self.welcomes.get(&cursor) {
                    Some(row) => Some(WelcomeInboxRow { record: copy_bytes(&row.record), state }),
                    None => None,
                };
                if let Some(row) = row {
                    self.welcomes.insert(cursor, row);
                }
            },
            ClientChange::WelcomeCursor { cursor } => {
                if cursor > MAX_POSITION {
                    return Err(ConstraintViolation);
                }
                self.welcome_cursor = cursor;
            },
            _ => {},
        }
        assert(self@ =~= wanted);
        Ok(())
    }

    /// Sets the attempt at what is wanted in a room.
    fn set_attempt(&mut self, room: RoomId, attempt: Option<MessageId>)
        ensures
            final(self)@ == (ClientView {
                intents: if old(self)@.intents.contains_key(room) {
                    old(self)@.intents.insert(
                        room,
                        IntentRowView { attempt, ..old(self)@.intents[room] },
                    )
                } else {
                    old(self)@.intents
                },
                ..old(self)@
            }),
    {
        let row = match self.intents.get(&room) {
            Some(row) => Some(
                IntentRow {
                    id: row.id,
                    target: row.target,
                    plaintext: copy_option(&row.plaintext),
                    package: copy_option(&row.package),
                    attempt,
                },
            ),
            None => None,
        };
        if let Some(row) = row {
            self.intents.insert(room, row);
        }
    }

    /// The rooms with an attempt under way, each once.
    pub(crate) fn rooms_attempting(&self, attempt: MessageId) -> (rooms: Vec<RoomId>)
        ensures
            rooms@.no_duplicates(),
            forall|room: RoomId|
                rooms@.contains(room) <==> (#[trigger] self@.intents.contains_key(room)
                    && self@.intents[room].attempt == Some(attempt)),
    {
        let mut rooms: Vec<RoomId> = Vec::new();
        let count = self.intents.len();
        let ghost keys = self.intents.row_keys();
        let mut at: usize = 0;
        while at < count
            invariant
                at <= count,
                count == keys.len(),
                keys == self.intents.row_keys(),
                keys.no_duplicates(),
                rooms@.no_duplicates(),
                forall|i: int|
                    0 <= i < rooms@.len() ==> exists|k: int|
                        0 <= k < at && #[trigger] keys[k] == #[trigger] rooms@[i],
                forall|i: int|
                    0 <= i < rooms@.len() ==> self@.intents.contains_key(#[trigger] rooms@[i])
                        && self@.intents[rooms@[i]].attempt == Some(attempt),
                forall|k: int|
                    0 <= k < at && self@.intents[#[trigger] keys[k]].attempt == Some(attempt)
                        ==> rooms@.contains(keys[k]),
            decreases count - at,
        {
            let (room, row) = self.intents.at(at);
            let under_way = match row.attempt {
                Some(id) => id.same(&attempt),
                None => false,
            };
            let ghost before = rooms@;
            if under_way {
                rooms.push(*room);
                proof {
                    assert forall|i: int, j: int|
                        0 <= i < rooms@.len() && 0 <= j < rooms@.len() && i != j implies rooms@[i]
                        != rooms@[j] by {
                        if i == before.len() {
                            let k = choose|k: int| 0 <= k < at && #[trigger] keys[k] == before[j];
                            assert(keys[k] != keys[at as int]);
                        } else if j == before.len() {
                            let k = choose|k: int| 0 <= k < at && #[trigger] keys[k] == before[i];
                            assert(keys[k] != keys[at as int]);
                        }
                    }
                    assert forall|k: int|
                        0 <= k < at + 1 && self@.intents[#[trigger] keys[k]].attempt == Some(attempt) implies rooms@.contains(
                        keys[k],
                    ) by {
                        if k < at {
                            let i = before.index_of(keys[k]);
                            assert(rooms@[i] == keys[k]);
                        } else {
                            assert(rooms@[before.len() as int] == keys[k]);
                        }
                    }
                    assert forall|i: int| 0 <= i < rooms@.len() implies exists|k: int|
                        0 <= k < at + 1 && #[trigger] keys[k] == #[trigger] rooms@[i] by {
                        if i < before.len() {
                            let k = choose|k: int| 0 <= k < at && #[trigger] keys[k] == before[i];
                            assert(keys[k] == rooms@[i]);
                        } else {
                            assert(keys[at as int] == rooms@[i]);
                        }
                    }
                }
            }
            at += 1;
        }
        proof {
            assert forall|room: RoomId|
                rooms@.contains(room) <==> (#[trigger] self@.intents.contains_key(room)
                    && self@.intents[room].attempt == Some(attempt)) by {
                if self@.intents.contains_key(room) && self@.intents[room].attempt == Some(attempt) {
                    assert(keys.contains(room));
                    let k = keys.index_of(room);
                    assert(keys[k] == room);
                }
            }
        }
        rooms
    }

    /// Ends an attempt without an outcome.
    fn release(&mut self, attempt: MessageId)
        ensures
            final(self)@ == (ClientView {
                intents: released(old(self)@.intents, attempt),
                ..old(self)@
            }),
    {
        let rooms = self.rooms_attempting(attempt);
        let ghost before = self@;
        let mut at: usize = 0;
        while at < rooms.len()
            invariant
                at <= rooms@.len(),
                rooms@.no_duplicates(),
                before == old(self)@,
                forall|room: RoomId|
                    rooms@.contains(room) <==> (#[trigger] before.intents.contains_key(room)
                        && before.intents[room].attempt == Some(attempt)),
                self@ == (ClientView { intents: self@.intents, ..before }),
                self@.intents.dom() == before.intents.dom(),
                forall|room: RoomId| #[trigger]
                    before.intents.contains_key(room) ==> self@.intents[room] == (
                    if rooms@.take(at as int).contains(room) {
                        IntentRowView { attempt: None, ..before.intents[room] }
                    } else {
                        before.intents[room]
                    }),
            decreases rooms.len() - at,
        {
            let room = rooms[at];
            proof {
                assert(rooms@.contains(room));
                assert(before.intents.contains_key(room));
                assert forall|other: RoomId| rooms@.take(at + 1).contains(other) == (rooms@.take(
                    at as int,
                ).contains(other) || other == room) by {
                    if rooms@.take(at + 1).contains(other) {
                        let i = rooms@.take(at + 1).index_of(other);
                        if i < at {
                            assert(rooms@.take(at as int)[i] == other);
                        }
                    }
                    if rooms@.take(at as int).contains(other) {
                        let i = rooms@.take(at as int).index_of(other);
                        assert(rooms@.take(at + 1)[i] == other);
                    }
                    assert(rooms@.take(at + 1)[at as int] == room);
                }
            }
            self.set_attempt(room, None);
            assert(self@.intents.dom() =~= before.intents.dom());
            at += 1;
        }
        assert(rooms@.take(at as int) =~= rooms@);
        assert(self@.intents =~= released(before.intents, attempt));
    }

    /// Removes what an attempt was for.
    fn remove_intents(&mut self, attempt: MessageId)
        ensures
            final(self)@ == (ClientView {
                intents: without_attempt(old(self)@.intents, attempt),
                ..old(self)@
            }),
    {
        let rooms = self.rooms_attempting(attempt);
        let ghost before = self@;
        let mut at: usize = 0;
        while at < rooms.len()
            invariant
                at <= rooms@.len(),
                before == old(self)@,
                self@ == (ClientView { intents: self@.intents, ..before }),
                forall|room: RoomId| #[trigger]
                    self@.intents.contains_key(room) <==> (before.intents.contains_key(room)
                        && !rooms@.take(at as int).contains(room)),
                forall|room: RoomId| #[trigger]
                    self@.intents.contains_key(room) ==> self@.intents[room] == before.intents[room],
            decreases rooms.len() - at,
        {
            let room = rooms[at];
            proof {
                assert forall|other: RoomId| rooms@.take(at + 1).contains(other) == (rooms@.take(
                    at as int,
                ).contains(other) || other == room) by {
                    if rooms@.take(at + 1).contains(other) {
                        let i = rooms@.take(at + 1).index_of(other);
                        if i < at {
                            assert(rooms@.take(at as int)[i] == other);
                        }
                    }
                    if rooms@.take(at as int).contains(other) {
                        let i = rooms@.take(at as int).index_of(other);
                        assert(rooms@.take(at + 1)[i] == other);
                    }
                    assert(rooms@.take(at + 1)[at as int] == room);
                }
            }
            self.intents.remove(&room);
            at += 1;
        }
        assert(rooms@.take(at as int) =~= rooms@);
        assert(self@.intents =~= without_attempt(before.intents, attempt));
    }

    fn apply_intent(&mut self, change: ClientChange) -> (result: Result<(), ConstraintViolation>)
        requires
            change is Intent || change is IntentAttempt || change is IntentsReleased
                || change is IntentPackage || change is IntentsRemoved,
        ensures
            client_admitted(old(self)@, change.deep_view()) ==> result is Ok && final(self)@
                == client_applied(old(self)@, change.deep_view()),
            !client_admitted(old(self)@, change.deep_view()) ==> result is Err && final(self)@
                == old(self)@,
    {
        let ghost wanted = client_applied(self@, change.deep_view());
        match change {
            ClientChange::Intent { room, id, target, plaintext } => {
                if self.intents.contains(&room) || self.knows_intent(id) {
                    return Err(ConstraintViolation);
                }
                self.intents.insert(
                    room,
                    IntentRow { id, target, plaintext, package: None, attempt: None },
                );
            },
            ClientChange::IntentAttempt { room, attempt } => {
                self.set_attempt(room, Some(attempt));
            },
            ClientChange::IntentsReleased { attempt } => {
                self.release(attempt);
            },
            ClientChange::IntentPackage { room, package } => {
                let row = match self.intents.get(&room) {
                    Some(row) => Some(
                        (row.id, row.target, copy_option(&row.plaintext)),
                    ),
                    None => None,
                };
                if let Some((id, target, plaintext)) = row {
                    proof {
                        crate::delivery::bytes_deep_view(package);
                    }
                    self.intents.insert(
                        room,
                        IntentRow { id, target, plaintext, package: Some(package), attempt: None },
                    );
                }
            },
            ClientChange::IntentsRemoved { attempt } => {
                self.remove_intents(attempt);
            },
            _ => {},
        }
        assert(self@ =~= wanted);
        Ok(())
    }

    fn apply_record(&mut self, change: ClientChange) -> (result: Result<(), ConstraintViolation>)
        requires
            change is History || change is HistorySequence || change is HistoryRemoved
                || change is Message || change is MessageRefreshed,
        ensures
            client_admitted(old(self)@, change.deep_view()) ==> result is Ok && final(self)@
                == client_applied(old(self)@, change.deep_view()),
            !client_admitted(old(self)@, change.deep_view()) ==> result is Err && final(self)@
                == old(self)@,
    {
        let ghost wanted = client_applied(self@, change.deep_view());
        match change {
            ClientChange::History { message_id, room, sequence, author, plaintext } => {
                if sequence > MAX_POSITION {
                    return Err(ConstraintViolation);
                }
                let at = self.find_history(message_id);
                if at < self.history.len() {
                    self.place(at, sequence);
                } else {
                    self.history.push(HistoryRow { message_id, room, sequence, author, plaintext });
                }
                assert(self@.history =~= wanted.history);
            },
            ClientChange::HistorySequence { message_id, sequence } => {
                if sequence > MAX_POSITION {
                    return Err(ConstraintViolation);
                }
                let at = self.find_history(message_id);
                if at < self.history.len() {
                    self.place(at, sequence);
                }
                assert(self@.history =~= wanted.history);
            },
            ClientChange::HistoryRemoved { message_id } => {
                let at = self.find_history(message_id);
                if at < self.history.len() {
                    self.history.remove(at);
                }
                assert(self@.history =~= wanted.history);
            },
            ClientChange::Message { message_id, room, sequence, sender, body } => {
                if sequence > MAX_POSITION || self.messages.contains(&message_id)
                    || self.envelope_elsewhere(message_id, room, sequence) {
                    return Err(ConstraintViolation);
                }
                self.messages.insert(message_id, MessageRow { room, sequence, sender, body });
            },
            ClientChange::MessageRefreshed { message_id, room, sequence, sender, body } => {
                if sequence > MAX_POSITION || self.envelope_elsewhere(message_id, room, sequence) {
                    return Err(ConstraintViolation);
                }
                self.messages.insert(message_id, MessageRow { room, sequence, sender, body });
            },
            _ => {},
        }
        assert(self@ =~= wanted);
        Ok(())
    }

    /// Gives the message at an index of the history a position.
    fn place(&mut self, at: usize, sequence: u64)
        requires
            at < old(self)@.history.len(),
        ensures
            final(self)@ == (ClientView {
                history: old(self)@.history.update(
                    at as int,
                    crate::client::tables::HistoryRowView {
                        sequence,
                        ..old(self)@.history[at as int]
                    },
                ),
                ..old(self)@
            }),
    {
        let row = HistoryRow {
            message_id: self.history[at].message_id,
            room: self.history[at].room,
            sequence,
            author: self.history[at].author,
            plaintext: copy_bytes(&self.history[at].plaintext),
        };
        self.history.set(at, row);
        assert(self@.history =~= old(self)@.history.update(
            at as int,
            crate::client::tables::HistoryRowView { sequence, ..old(self)@.history[at as int] },
        ));
    }

    fn apply_queue(&mut self, change: ClientChange) -> (result: Result<(), ConstraintViolation>)
        requires
            change is Outbox || change is OutboxRemoved || change is Ack || change is AckCleared
                || change is WelcomeAck || change is WelcomeAckCleared,
        ensures
            client_admitted(old(self)@, change.deep_view()) ==> result is Ok && final(self)@
                == client_applied(old(self)@, change.deep_view()),
            !client_admitted(old(self)@, change.deep_view()) ==> result is Err && final(self)@
                == old(self)@,
    {
        let ghost wanted = client_applied(self@, change.deep_view());
        match change {
            ClientChange::Outbox { rowid, request_id, kind, message } => {
                let count = self.outbox.len();
                assert(removed_at(self@.outbox, count as nat) == self@.outbox);
                if self.find_request(request_id) < count || self.newest_rowid(count) >= rowid {
                    return Err(ConstraintViolation);
                }
                self.outbox.push(OutboxRow { rowid, request_id, kind, message });
                assert(self@.outbox =~= wanted.outbox);
            },
            ClientChange::OutboxRemoved { request_id } => {
                let at = self.find_request(request_id);
                if at < self.outbox.len() {
                    self.outbox.remove(at);
                }
                assert(self@.outbox =~= wanted.outbox);
            },
            ClientChange::Ack { message_id, room } => {
                if find_ack(&self.acks, message_id) == self.acks.len() {
                    self.acks.push((message_id, room));
                }
            },
            ClientChange::AckCleared { message_id } => {
                let at = find_ack(&self.acks, message_id);
                if at < self.acks.len() {
                    self.acks.remove(at);
                }
            },
            ClientChange::WelcomeAck { welcome_id, room } => {
                if find_ack(&self.welcome_acks, welcome_id) == self.welcome_acks.len() {
                    self.welcome_acks.push((welcome_id, room));
                }
            },
            ClientChange::WelcomeAckCleared { welcome_id } => {
                let at = find_ack(&self.welcome_acks, welcome_id);
                if at < self.welcome_acks.len() {
                    self.welcome_acks.remove(at);
                }
            },
            _ => {},
        }
        assert(self@ =~= wanted);
        Ok(())
    }

    /// Takes a change, or leaves the tables as they are where it would break a
    /// constraint.
    pub fn apply(&mut self, change: ClientChange) -> (result: Result<(), ConstraintViolation>)
        ensures
            client_admitted(old(self)@, change.deep_view()) ==> result is Ok && final(self)@
                == client_applied(old(self)@, change.deep_view()),
            !client_admitted(old(self)@, change.deep_view()) ==> result is Err && final(self)@
                == old(self)@,
    {
        match &change {
            ClientChange::Identity { .. } | ClientChange::MlsIdentity { .. } | ClientChange::Contact {
                ..
            }
            | ClientChange::Cursor { .. } | ClientChange::Processing { .. } | ClientChange::Room { .. } => {
                self.apply_identity(change)
            },
            ClientChange::Inbox { .. } | ClientChange::InboxState { .. } | ClientChange::Welcome { .. }
            | ClientChange::WelcomeState { .. } | ClientChange::WelcomeCursor { .. } => {
                self.apply_delivery(change)
            },
            ClientChange::Intent { .. } | ClientChange::IntentAttempt { .. }
            | ClientChange::IntentsReleased { .. } | ClientChange::IntentPackage { .. }
            | ClientChange::IntentsRemoved { .. } => {
                self.apply_intent(change)
            },
            ClientChange::History { .. } | ClientChange::HistorySequence { .. }
            | ClientChange::HistoryRemoved { .. } | ClientChange::Message { .. }
            | ClientChange::MessageRefreshed { .. } => self.apply_record(change),
            ClientChange::Outbox { .. } | ClientChange::OutboxRemoved { .. } | ClientChange::Ack { .. }
            | ClientChange::AckCleared { .. } | ClientChange::WelcomeAck { .. }
            | ClientChange::WelcomeAckCleared { .. } => self.apply_queue(change),
        }
    }

    /// Takes changes back, from the last to the first.
    fn roll_back(
        &mut self,
        undos: Vec<Undo>,
        Ghost(start): Ghost<ClientView>,
        Ghost(changes): Ghost<Seq<ClientChangeView>>,
    )
        requires
            undos@.len() <= changes.len(),
            all_take_back(start, changes, undos@),
            old(self)@ == client_all_applied(start, changes.take(undos@.len() as int)),
        ensures
            final(self)@ == start,
    {
        let mut left = undos;
        while left.len() > 0
            invariant
                left@.len() <= changes.len(),
                all_take_back(start, changes, left@),
                self@ == client_all_applied(start, changes.take(left@.len() as int)),
            decreases left.len(),
        {
            let ghost taken = left@;
            if let Some(undo) = left.pop() {
                assert(taken[taken.len() - 1] == undo);
                assert(left@ =~= taken.drop_last());
                self.undo(
                    undo,
                    Ghost(client_all_applied(start, changes.take(taken.len() - 1))),
                );
            }
        }
        assert(changes.take(0) =~= Seq::<ClientChangeView>::empty());
    }

    /// Takes changes one after the other, or none of them where one would break a
    /// constraint.
    pub fn commit(
        &mut self,
        changes: Vec<ClientChange>,
    ) -> (result: Result<(), ConstraintViolation>)
        ensures
            client_all_admitted(old(self)@, changes.deep_view()) ==> result is Ok && final(self)@
                == client_all_applied(old(self)@, changes.deep_view()),
            !client_all_admitted(old(self)@, changes.deep_view()) ==> result is Err && final(self)@
                == old(self)@,
    {
        let ghost all = changes.deep_view();
        let mut left = changes;
        let mut undos: Vec<Undo> = Vec::new();
        let ghost mut done: int = 0;
        assert(all.take(0) =~= Seq::<ClientChangeView>::empty());
        assert(all.skip(0) =~= all);
        while left.len() > 0
            invariant
                all == changes.deep_view(),
                0 <= done <= all.len(),
                left.deep_view() == all.skip(done),
                client_all_admitted(old(self)@, all.take(done)),
                self@ == client_all_applied(old(self)@, all.take(done)),
                undos@.len() == done,
                all_take_back(old(self)@, all, undos@),
            decreases left.len(),
        {
            let ghost before = left.deep_view();
            let change = left.remove(0);
            proof {
                assert(change.deep_view() == before[0]);
                assert(left.deep_view() =~= before.skip(1));
                assert(before.skip(1) =~= all.skip(done + 1));
                assert(all.take(done + 1).drop_last() =~= all.take(done));
                assert(all.take(done + 1).last() == all[done]);
            }
            let undo = self.save(&change);
            match self.apply(change) {
                Ok(()) => undos.push(undo),
                Err(violation) => {
                    proof {
                        if client_all_admitted(old(self)@, all) {
                            admitted_prefix(old(self)@, all, done + 1);
                        }
                    }
                    self.roll_back(undos, Ghost(old(self)@), Ghost(all));
                    return Err(violation);
                },
            }
            proof {
                done = done + 1;
            }
        }
        assert(all.take(done) =~= all);
        Ok(())
    }
}

proof fn admitted_prefix(view: ClientView, changes: Seq<ClientChangeView>, count: int)
    requires
        client_all_admitted(view, changes),
        0 <= count <= changes.len(),
    ensures
        client_all_admitted(view, changes.take(count)),
    decreases changes.len(),
{
    if count == changes.len() {
        assert(changes.take(count) =~= changes);
    } else {
        admitted_prefix(view, changes.drop_last(), count);
        assert(changes.drop_last().take(count) =~= changes.take(count));
    }
}

} // verus!
