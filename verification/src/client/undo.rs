//! Taking changes back: tables that cannot take all of a transaction's changes are
//! as they were before it.
use vstd::prelude::*;
use crate::client::state::{find_ack, ClientTables};
use crate::client::tables::{
    client_admitted, client_applied, copy_option, Arrival, ClientChange, ClientView, HistoryRow,
    InboxRow, IntentRow, IntentRowView, MessageRow, OutboxRow, RoomEntry, WelcomeInboxRow,
};
use crate::delivery::copy_bytes;
use crate::ids::{MessageId, RoomId, UserId};

verus! {

/// What stood where a change was made.
#[allow(inconsistent_fields)]
pub(crate) enum Undo {
    Nothing,
    Identity,
    MlsIdentity,
    Contact { user: UserId },
    Cursor { room: RoomId, before: Option<u64> },
    Inbox { id: MessageId, before: Option<InboxRow> },
    Welcome { cursor: u64, before: Option<WelcomeInboxRow> },
    WelcomeCursor { before: u64 },
    Intent { room: RoomId, before: Option<IntentRow> },
    Intents { before: Vec<(RoomId, IntentRow)> },
    HistoryGrown,
    HistoryPlaced { at: usize, before: HistoryRow },
    HistoryShrunk { at: usize, before: HistoryRow },
    Processing { id: MessageId, before: Option<Arrival> },
    Message { id: MessageId, before: Option<MessageRow> },
    OutboxGrown,
    OutboxShrunk { at: usize, before: OutboxRow },
    AcksGrown,
    AcksShrunk { at: usize, before: (MessageId, RoomId) },
    WelcomeAcksGrown,
    WelcomeAcksShrunk { at: usize, before: (MessageId, RoomId) },
    Room { room: RoomId, before: Option<RoomEntry> },
}

/// Rows with one put back that was there, or without it where none was.
spec fn put_back<K, V>(rows: Map<K, V>, key: K, before: Option<V>) -> Map<K, V> {
    match before {
        Some(row) => rows.insert(key, row),
        None => rows.remove(key),
    }
}

/// Intents with some put back.
spec fn all_put_back(
    intents: Map<RoomId, IntentRowView>,
    before: Seq<(RoomId, IntentRow)>,
) -> Map<RoomId, IntentRowView>
    decreases before.len(),
{
    if before.len() == 0 {
        intents
    } else {
        all_put_back(intents, before.drop_last()).insert(
            before.last().0,
            before.last().1.deep_view(),
        )
    }
}

/// Whether there is room for what is put back.
spec fn undoable(view: ClientView, undo: Undo) -> bool {
    match undo {
        Undo::HistoryGrown => view.history.len() > 0,
        Undo::HistoryPlaced { at, .. } => at < view.history.len(),
        Undo::HistoryShrunk { at, .. } => at <= view.history.len(),
        Undo::OutboxGrown => view.outbox.len() > 0,
        Undo::OutboxShrunk { at, .. } => at <= view.outbox.len(),
        Undo::AcksGrown => view.acks.len() > 0,
        Undo::AcksShrunk { at, .. } => at <= view.acks.len(),
        Undo::WelcomeAcksGrown => view.welcome_acks.len() > 0,
        Undo::WelcomeAcksShrunk { at, .. } => at <= view.welcome_acks.len(),
        _ => true,
    }
}

/// The tables with what stood there before.
spec fn undone(view: ClientView, undo: Undo) -> ClientView {
    match undo {
        Undo::Nothing => view,
        Undo::Identity => ClientView { identity: None, ..view },
        Undo::MlsIdentity => ClientView { mls_identity: None, ..view },
        Undo::Contact { user } => ClientView { contacts: view.contacts.remove(user), ..view },
        Undo::Cursor { room, before } => ClientView {
            cursors: put_back(view.cursors, room, before),
            ..view
        },
        Undo::Inbox { id, before } => ClientView {
            inbox: put_back(view.inbox, id, before.deep_view()),
            ..view
        },
        Undo::Welcome { cursor, before } => ClientView {
            welcomes: put_back(view.welcomes, cursor, before.deep_view()),
            ..view
        },
        Undo::WelcomeCursor { before } => ClientView { welcome_cursor: before, ..view },
        Undo::Intent { room, before } => ClientView {
            intents: put_back(view.intents, room, before.deep_view()),
            ..view
        },
        Undo::Intents { before } => ClientView {
            intents: all_put_back(view.intents, before@),
            ..view
        },
        Undo::HistoryGrown => ClientView { history: view.history.drop_last(), ..view },
        Undo::HistoryPlaced { at, before } => ClientView {
            history: view.history.update(at as int, before.deep_view()),
            ..view
        },
        Undo::HistoryShrunk { at, before } => ClientView {
            history: view.history.insert(at as int, before.deep_view()),
            ..view
        },
        Undo::Processing { id, before } => ClientView {
            processing: put_back(view.processing, id, before),
            ..view
        },
        Undo::Message { id, before } => ClientView {
            messages: put_back(view.messages, id, before.deep_view()),
            ..view
        },
        Undo::OutboxGrown => ClientView { outbox: view.outbox.drop_last(), ..view },
        Undo::OutboxShrunk { at, before } => ClientView {
            outbox: view.outbox.insert(at as int, before.deep_view()),
            ..view
        },
        Undo::AcksGrown => ClientView { acks: view.acks.drop_last(), ..view },
        Undo::AcksShrunk { at, before } => ClientView {
            acks: view.acks.insert(at as int, before),
            ..view
        },
        Undo::WelcomeAcksGrown => ClientView {
            welcome_acks: view.welcome_acks.drop_last(),
            ..view
        },
        Undo::WelcomeAcksShrunk { at, before } => ClientView {
            welcome_acks: view.welcome_acks.insert(at as int, before),
            ..view
        },
        Undo::Room { room, before } => ClientView {
            rooms: put_back(view.rooms, room, before.deep_view()),
            ..view
        },
    }
}

/// Whether what was saved before a change takes it back.
pub(crate) closed spec fn takes_back(view: ClientView, after: ClientView, undo: Undo) -> bool {
    undoable(after, undo) && undone(after, undo) == view
}

fn copy_inbox(row: &InboxRow) -> (copy: InboxRow)
    ensures
        copy.deep_view() == row.deep_view(),
{
    InboxRow {
        room: row.room,
        sequence: row.sequence,
        record: copy_bytes(&row.record),
        state: row.state,
    }
}

fn copy_welcome(row: &WelcomeInboxRow) -> (copy: WelcomeInboxRow)
    ensures
        copy.deep_view() == row.deep_view(),
{
    WelcomeInboxRow { record: copy_bytes(&row.record), state: row.state }
}

fn copy_intent(row: &IntentRow) -> (copy: IntentRow)
    ensures
        copy.deep_view() == row.deep_view(),
{
    IntentRow {
        id: row.id,
        target: row.target,
        plaintext: copy_option(&row.plaintext),
        package: copy_option(&row.package),
        attempt: row.attempt,
    }
}

fn copy_history(row: &HistoryRow) -> (copy: HistoryRow)
    ensures
        copy.deep_view() == row.deep_view(),
{
    HistoryRow {
        message_id: row.message_id,
        room: row.room,
        sequence: row.sequence,
        author: row.author,
        plaintext: copy_bytes(&row.plaintext),
    }
}

fn copy_message(row: &MessageRow) -> (copy: MessageRow)
    ensures
        copy.deep_view() == row.deep_view(),
{
    MessageRow {
        room: row.room,
        sequence: row.sequence,
        sender: row.sender,
        body: copy_bytes(&row.body),
    }
}

fn copy_outbox(row: &OutboxRow) -> (copy: OutboxRow)
    ensures
        copy.deep_view() == row.deep_view(),
{
    OutboxRow {
        rowid: row.rowid,
        request_id: row.request_id,
        kind: row.kind.clone(),
        message: copy_bytes(&row.message),
    }
}

proof fn put_back_members(
    changed: Map<RoomId, IntentRowView>,
    before: Seq<(RoomId, IntentRow)>,
)
    requires
        forall|i: int, j: int|
            0 <= i < j < before.len() ==> (#[trigger] before[i]).0 != (#[trigger] before[j]).0,
    ensures
        forall|i: int|
            0 <= i < before.len() ==> all_put_back(changed, before).contains_key(
                (#[trigger] before[i]).0,
            ) && all_put_back(changed, before)[before[i].0] == before[i].1.deep_view(),
        forall|room: RoomId|
            #![trigger all_put_back(changed, before).contains_key(room)]
            (forall|i: int| 0 <= i < before.len() ==> (#[trigger] before[i]).0 != room) ==> (
            all_put_back(changed, before).contains_key(room) == changed.contains_key(room)
                && all_put_back(changed, before)[room] == changed[room]),
    decreases before.len(),
{
    if before.len() > 0 {
        let fewer = before.drop_last();
        put_back_members(changed, fewer);
        assert forall|i: int| 0 <= i < before.len() implies all_put_back(
            changed,
            before,
        ).contains_key((#[trigger] before[i]).0) && all_put_back(changed, before)[before[i].0]
            == before[i].1.deep_view() by {
            if i < fewer.len() {
                assert(fewer[i] == before[i]);
                assert(before[i].0 != before[before.len() - 1].0);
            }
        }
        assert forall|room: RoomId|
            #![trigger all_put_back(changed, before).contains_key(room)]
            (forall|i: int| 0 <= i < before.len() ==> (#[trigger] before[i]).0 != room) implies (
        all_put_back(changed, before).contains_key(room) == changed.contains_key(room)
            && all_put_back(changed, before)[room] == changed[room]) by {
            assert forall|i: int| 0 <= i < fewer.len() implies (#[trigger] fewer[i]).0 != room by {
                assert(fewer[i] == before[i]);
            }
            assert(before[before.len() - 1].0 != room);
            assert(all_put_back(changed, fewer).contains_key(room) == changed.contains_key(room));
        }
    }
}

/// Putting the intents of an attempt back undoes a change of only those.
proof fn intents_put_back(
    intents: Map<RoomId, IntentRowView>,
    changed: Map<RoomId, IntentRowView>,
    before: Seq<(RoomId, IntentRow)>,
    attempt: MessageId,
)
    requires
        forall|i: int, j: int|
            0 <= i < j < before.len() ==> (#[trigger] before[i]).0 != (#[trigger] before[j]).0,
        forall|i: int|
            0 <= i < before.len() ==> intents.contains_key((#[trigger] before[i]).0)
                && before[i].1.deep_view() == intents[before[i].0],
        forall|room: RoomId| #[trigger]
            intents.contains_key(room) && intents[room].attempt == Some(attempt) ==> exists|i: int|
                0 <= i < before.len() && (#[trigger] before[i]).0 == room,
        forall|room: RoomId|
            !(intents.contains_key(room) && intents[room].attempt == Some(attempt)) ==> (
            #[trigger] changed.contains_key(room) == intents.contains_key(room) && (
            changed.contains_key(room) ==> changed[room] == intents[room])),
    ensures
        all_put_back(changed, before) == intents,
{
    put_back_members(changed, before);
    let all = all_put_back(changed, before);
    assert forall|room: RoomId| all.contains_key(room) == intents.contains_key(room) && (
    intents.contains_key(room) ==> #[trigger] all[room] == intents[room]) by {
        if exists|i: int| 0 <= i < before.len() && (#[trigger] before[i]).0 == room {
            let i = choose|i: int| 0 <= i < before.len() && (#[trigger] before[i]).0 == room;
            assert(all.contains_key(before[i].0));
        } else {
            assert(all.contains_key(room) == changed.contains_key(room));
        }
    }
    assert(all =~= intents);
}

impl ClientTables {
    fn saved_intents(&self, attempt: MessageId) -> (before: Vec<(RoomId, IntentRow)>)
        ensures
            forall|i: int, j: int|
                0 <= i < j < before@.len() ==> (#[trigger] before@[i]).0 != (
                #[trigger] before@[j]).0,
            forall|i: int|
                0 <= i < before@.len() ==> self@.intents.contains_key((#[trigger] before@[i]).0)
                    && before@[i].1.deep_view() == self@.intents[before@[i].0],
            forall|room: RoomId| #[trigger]
                self@.intents.contains_key(room) && self@.intents[room].attempt == Some(attempt)
                    ==> exists|i: int| 0 <= i < before@.len() && (#[trigger] before@[i]).0 == room,
    {
        let rooms = self.rooms_attempting(attempt);
        let mut before: Vec<(RoomId, IntentRow)> = Vec::new();
        let mut at: usize = 0;
        while at < rooms.len()
            invariant
                at <= rooms@.len(),
                before@.len() == at,
                rooms@.no_duplicates(),
                forall|room: RoomId|
                    rooms@.contains(room) <==> (#[trigger] self@.intents.contains_key(room)
                        && self@.intents[room].attempt == Some(attempt)),
                forall|i: int|
                    0 <= i < at ==> (#[trigger] before@[i]).0 == rooms@[i]
                        && before@[i].1.deep_view() == self@.intents[rooms@[i]],
            decreases rooms.len() - at,
        {
            let room = rooms[at];
            assert(rooms@.contains(room));
            assert(self@.intents.contains_key(room));
            if let Some(row) = self.intents.get(&room) {
                before.push((room, copy_intent(row)));
            }
            at += 1;
        }
        proof {
            assert forall|i: int| 0 <= i < before@.len() implies self@.intents.contains_key(
                (#[trigger] before@[i]).0,
            ) && before@[i].1.deep_view() == self@.intents[before@[i].0] by {
                assert(rooms@.contains(rooms@[i]));
            }
            assert forall|room: RoomId| #[trigger] self@.intents.contains_key(room)
                && self@.intents[room].attempt == Some(attempt) implies exists|i: int|
                0 <= i < before@.len() && (#[trigger] before@[i]).0 == room by {
                let i = rooms@.index_of(room);
                assert(before@[i].0 == room);
            }
        }
        before
    }

    fn save_identity(&self, change: &ClientChange) -> (undo: Undo)
        requires
            change is Identity || change is MlsIdentity || change is Contact || change is Cursor
                || change is Processing || change is Room,
        ensures
            client_admitted(self@, change.deep_view()) ==> takes_back(
                self@,
                client_applied(self@, change.deep_view()),
                undo,
            ),
    {
        let ghost after = client_applied(self@, change.deep_view());
        let undo = match change {
            ClientChange::Identity { .. } => Undo::Identity,
            ClientChange::MlsIdentity { .. } => Undo::MlsIdentity,
            ClientChange::Contact { user, .. } => Undo::Contact { user: *user },
            ClientChange::Cursor { room, .. } => Undo::Cursor {
                room: *room,
                before: match self.cursors.get(room) {
                    Some(sequence) => Some(*sequence),
                    None => None,
                },
            },
            ClientChange::Processing { message_id, .. } => Undo::Processing {
                id: *message_id,
                before: match self.processing.get(message_id) {
                    Some(state) => Some(*state),
                    None => None,
                },
            },
            ClientChange::Room { room, .. } => Undo::Room {
                room: *room,
                before: match self.rooms.get(room) {
                    Some(row) => Some(
                        RoomEntry { name: row.name.clone(), origin: row.origin.clone() },
                    ),
                    None => None,
                },
            },
            _ => Undo::Nothing,
        };
        proof {
            if client_admitted(self@, change.deep_view()) {
                assert(undone(after, undo) =~= self@);
            }
        }
        undo
    }

    fn save_delivery(&self, change: &ClientChange) -> (undo: Undo)
        requires
            change is Inbox || change is InboxState || change is Welcome || change is WelcomeState
                || change is WelcomeCursor,
        ensures
            client_admitted(self@, change.deep_view()) ==> takes_back(
                self@,
                client_applied(self@, change.deep_view()),
                undo,
            ),
    {
        let ghost after = client_applied(self@, change.deep_view());
        let undo = match change {
            ClientChange::Inbox { id, .. } | ClientChange::InboxState { id, .. } => Undo::Inbox {
                id: *id,
                before: match self.inbox.get(id) {
                    Some(row) => Some(copy_inbox(row)),
                    None => None,
                },
            },
            ClientChange::Welcome { cursor, .. } | ClientChange::WelcomeState { cursor, .. } => {
                Undo::Welcome {
                    cursor: *cursor,
                    before: match self.welcomes.get(cursor) {
                        Some(row) => Some(copy_welcome(row)),
                        None => None,
                    },
                }
            },
            ClientChange::WelcomeCursor { .. } => Undo::WelcomeCursor {
                before: self.welcome_cursor,
            },
            _ => Undo::Nothing,
        };
        proof {
            if client_admitted(self@, change.deep_view()) {
                assert(undone(after, undo) =~= self@);
            }
        }
        undo
    }

    fn save_intent(&self, change: &ClientChange) -> (undo: Undo)
        requires
            change is Intent || change is IntentAttempt || change is IntentsReleased
                || change is IntentPackage || change is IntentsRemoved,
        ensures
            client_admitted(self@, change.deep_view()) ==> takes_back(
                self@,
                client_applied(self@, change.deep_view()),
                undo,
            ),
    {
        let ghost after = client_applied(self@, change.deep_view());
        let undo = match change {
            ClientChange::Intent { room, .. } | ClientChange::IntentAttempt { room, .. }
            | ClientChange::IntentPackage { room, .. } => Undo::Intent {
                room: *room,
                before: match self.intents.get(room) {
                    Some(row) => Some(copy_intent(row)),
                    None => None,
                },
            },
            ClientChange::IntentsReleased { attempt }
            | ClientChange::IntentsRemoved { attempt } => {
                let before = self.saved_intents(*attempt);
                proof {
                    intents_put_back(self@.intents, after.intents, before@, *attempt);
                }
                Undo::Intents { before }
            },
            _ => Undo::Nothing,
        };
        proof {
            if client_admitted(self@, change.deep_view()) {
                assert(undone(after, undo) =~= self@);
            }
        }
        undo
    }

    fn save_record(&self, change: &ClientChange) -> (undo: Undo)
        requires
            change is History || change is HistorySequence || change is HistoryRemoved
                || change is Message || change is MessageRefreshed,
        ensures
            client_admitted(self@, change.deep_view()) ==> takes_back(
                self@,
                client_applied(self@, change.deep_view()),
                undo,
            ),
    {
        let ghost after = client_applied(self@, change.deep_view());
        let undo = match change {
            ClientChange::History { message_id, .. } => {
                let at = self.find_history(*message_id);
                if at < self.history.len() {
                    Undo::HistoryPlaced { at, before: copy_history(&self.history[at]) }
                } else {
                    Undo::HistoryGrown
                }
            },
            ClientChange::HistorySequence { message_id, .. } => {
                let at = self.find_history(*message_id);
                if at < self.history.len() {
                    Undo::HistoryPlaced { at, before: copy_history(&self.history[at]) }
                } else {
                    Undo::Nothing
                }
            },
            ClientChange::HistoryRemoved { message_id } => {
                let at = self.find_history(*message_id);
                if at < self.history.len() {
                    Undo::HistoryShrunk { at, before: copy_history(&self.history[at]) }
                } else {
                    Undo::Nothing
                }
            },
            ClientChange::Message { message_id, .. }
            | ClientChange::MessageRefreshed { message_id, .. } => Undo::Message {
                id: *message_id,
                before: match self.messages.get(message_id) {
                    Some(row) => Some(copy_message(row)),
                    None => None,
                },
            },
            _ => Undo::Nothing,
        };
        proof {
            if client_admitted(self@, change.deep_view()) {
                assert(undone(after, undo).history =~= self@.history);
                assert(undone(after, undo) =~= self@);
            }
        }
        undo
    }

    fn save_queue(&self, change: &ClientChange) -> (undo: Undo)
        requires
            change is Outbox || change is OutboxRemoved || change is Ack || change is AckCleared
                || change is WelcomeAck || change is WelcomeAckCleared,
        ensures
            client_admitted(self@, change.deep_view()) ==> takes_back(
                self@,
                client_applied(self@, change.deep_view()),
                undo,
            ),
    {
        let ghost after = client_applied(self@, change.deep_view());
        let undo = match change {
            ClientChange::Outbox { .. } => Undo::OutboxGrown,
            ClientChange::OutboxRemoved { request_id } => {
                let at = self.find_request(*request_id);
                if at < self.outbox.len() {
                    Undo::OutboxShrunk { at, before: copy_outbox(&self.outbox[at]) }
                } else {
                    Undo::Nothing
                }
            },
            ClientChange::Ack { message_id, .. } => {
                if find_ack(&self.acks, *message_id) == self.acks.len() {
                    Undo::AcksGrown
                } else {
                    Undo::Nothing
                }
            },
            ClientChange::AckCleared { message_id } => {
                let at = find_ack(&self.acks, *message_id);
                if at < self.acks.len() {
                    Undo::AcksShrunk { at, before: self.acks[at] }
                } else {
                    Undo::Nothing
                }
            },
            ClientChange::WelcomeAck { welcome_id, .. } => {
                if find_ack(&self.welcome_acks, *welcome_id) == self.welcome_acks.len() {
                    Undo::WelcomeAcksGrown
                } else {
                    Undo::Nothing
                }
            },
            ClientChange::WelcomeAckCleared { welcome_id } => {
                let at = find_ack(&self.welcome_acks, *welcome_id);
                if at < self.welcome_acks.len() {
                    Undo::WelcomeAcksShrunk { at, before: self.welcome_acks[at] }
                } else {
                    Undo::Nothing
                }
            },
            _ => Undo::Nothing,
        };
        proof {
            if client_admitted(self@, change.deep_view()) {
                assert(undone(after, undo).outbox =~= self@.outbox);
                assert(undone(after, undo) =~= self@);
            }
        }
        undo
    }

    /// What takes a change back, once it was made.
    pub(crate) fn save(&self, change: &ClientChange) -> (undo: Undo)
        ensures
            client_admitted(self@, change.deep_view()) ==> takes_back(
                self@,
                client_applied(self@, change.deep_view()),
                undo,
            ),
    {
        match change {
            ClientChange::Identity { .. } | ClientChange::MlsIdentity { .. }
            | ClientChange::Contact { .. } | ClientChange::Cursor { .. }
            | ClientChange::Processing { .. } | ClientChange::Room { .. } => {
                self.save_identity(change)
            },
            ClientChange::Inbox { .. } | ClientChange::InboxState { .. }
            | ClientChange::Welcome { .. } | ClientChange::WelcomeState { .. }
            | ClientChange::WelcomeCursor { .. } => self.save_delivery(change),
            ClientChange::Intent { .. } | ClientChange::IntentAttempt { .. }
            | ClientChange::IntentsReleased { .. } | ClientChange::IntentPackage { .. }
            | ClientChange::IntentsRemoved { .. } => self.save_intent(change),
            ClientChange::History { .. } | ClientChange::HistorySequence { .. }
            | ClientChange::HistoryRemoved { .. } | ClientChange::Message { .. }
            | ClientChange::MessageRefreshed { .. } => self.save_record(change),
            ClientChange::Outbox { .. } | ClientChange::OutboxRemoved { .. }
            | ClientChange::Ack { .. } | ClientChange::AckCleared { .. }
            | ClientChange::WelcomeAck { .. } | ClientChange::WelcomeAckCleared { .. } => {
                self.save_queue(change)
            },
        }
    }

    fn restore_intents(&mut self, before: Vec<(RoomId, IntentRow)>)
        ensures
            final(self)@ == (ClientView {
                intents: all_put_back(old(self)@.intents, before@),
                ..old(self)@
            }),
    {
        let ghost view = self@;
        let mut at: usize = 0;
        assert(before@.take(0) =~= Seq::<(RoomId, IntentRow)>::empty());
        while at < before.len()
            invariant
                at <= before@.len(),
                view == old(self)@,
                self@ == (ClientView {
                    intents: all_put_back(view.intents, before@.take(at as int)),
                    ..view
                }),
            decreases before.len() - at,
        {
            assert(before@.take(at + 1).drop_last() =~= before@.take(at as int));
            self.intents.insert(before[at].0, copy_intent(&before[at].1));
            at += 1;
        }
        assert(before@.take(at as int) =~= before@);
    }

    fn restore_row(&mut self, undo: Undo)
        requires
            undo is Nothing || undo is Identity || undo is MlsIdentity || undo is Contact
                || undo is Cursor || undo is Inbox || undo is Welcome || undo is WelcomeCursor
                || undo is Intent || undo is Intents || undo is Processing || undo is Message
                || undo is Room,
        ensures
            final(self)@ == undone(old(self)@, undo),
    {
        let ghost wanted = undone(self@, undo);
        match undo {
            Undo::Identity => self.identity = None,
            Undo::MlsIdentity => self.mls_identity = None,
            Undo::Contact { user } => self.contacts.remove(&user),
            Undo::Cursor { room, before } => match before {
                Some(sequence) => self.cursors.insert(room, sequence),
                None => self.cursors.remove(&room),
            },
            Undo::Inbox { id, before } => match before {
                Some(row) => self.inbox.insert(id, row),
                None => self.inbox.remove(&id),
            },
            Undo::Welcome { cursor, before } => match before {
                Some(row) => self.welcomes.insert(cursor, row),
                None => self.welcomes.remove(&cursor),
            },
            Undo::WelcomeCursor { before } => self.welcome_cursor = before,
            Undo::Intent { room, before } => match before {
                Some(row) => self.intents.insert(room, row),
                None => self.intents.remove(&room),
            },
            Undo::Intents { before } => self.restore_intents(before),
            Undo::Processing { id, before } => match before {
                Some(state) => self.processing.insert(id, state),
                None => self.processing.remove(&id),
            },
            Undo::Message { id, before } => match before {
                Some(row) => self.messages.insert(id, row),
                None => self.messages.remove(&id),
            },
            Undo::Room { room, before } => match before {
                Some(row) => self.rooms.insert(room, row),
                None => self.rooms.remove(&room),
            },
            _ => {},
        }
        assert(self@ =~= wanted);
    }

    fn restore_list(&mut self, undo: Undo)
        requires
            undoable(old(self)@, undo),
            undo is HistoryGrown || undo is HistoryPlaced || undo is HistoryShrunk
                || undo is OutboxGrown || undo is OutboxShrunk || undo is AcksGrown
                || undo is AcksShrunk || undo is WelcomeAcksGrown || undo is WelcomeAcksShrunk,
        ensures
            final(self)@ == undone(old(self)@, undo),
    {
        let ghost wanted = undone(self@, undo);
        match undo {
            Undo::HistoryGrown => {
                let _ = self.history.pop();
            },
            Undo::HistoryPlaced { at, before } => self.history.set(at, before),
            Undo::HistoryShrunk { at, before } => self.history.insert(at, before),
            Undo::OutboxGrown => {
                let _ = self.outbox.pop();
            },
            Undo::OutboxShrunk { at, before } => self.outbox.insert(at, before),
            Undo::AcksGrown => {
                let _ = self.acks.pop();
            },
            Undo::AcksShrunk { at, before } => self.acks.insert(at, before),
            Undo::WelcomeAcksGrown => {
                let _ = self.welcome_acks.pop();
            },
            Undo::WelcomeAcksShrunk { at, before } => self.welcome_acks.insert(at, before),
            _ => {},
        }
        assert(self@.history =~= wanted.history);
        assert(self@.outbox =~= wanted.outbox);
        assert(self@ =~= wanted);
    }

    /// Takes a change back.
    pub(crate) fn undo(&mut self, undo: Undo, Ghost(before): Ghost<ClientView>)
        requires
            takes_back(before, old(self)@, undo),
        ensures
            final(self)@ == before,
    {
        match &undo {
            Undo::HistoryGrown | Undo::HistoryPlaced { .. } | Undo::HistoryShrunk { .. }
            | Undo::OutboxGrown | Undo::OutboxShrunk { .. } | Undo::AcksGrown
            | Undo::AcksShrunk { .. } | Undo::WelcomeAcksGrown
            | Undo::WelcomeAcksShrunk { .. } => self.restore_list(undo),
            _ => self.restore_row(undo),
        }
    }
}

} // verus!
