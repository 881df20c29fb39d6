//! What holds of the client whatever it is told.
use vstd::prelude::*;
use crate::client::attempts::{
    adding, attempt_request, attempting, planned_attempt, sending, welcome_signed, AttemptPlanView,
};
use crate::client::complete::{completion, GroupStep, Note};
use crate::client::contacts::required_contact;
use crate::client::errors::{StoreDefect, StoreError};
use crate::client::events::{event_applied, event_refused, own_settling};
use crate::client::groups::{PackageFault, ProcessedView, ProcessingFault};
use crate::client::journal::{
    attempt_unresolved, event_finishing, event_receipt, journal_kind, journal_message, journaled,
    journaling, outbox_without, receiving, room_cursor, EngineError, Refusal,
};
use crate::client::store::{
    ack_changes, ack_clearings, message_storing, room_upsert, unchanged, DatabaseSize,
};
use crate::client::tables::{
    ack_index, client_admitted, client_all_admitted, client_all_applied, client_applied,
    empty_client, history_index, last_rowid, outbox_has, outbox_index, position_taken, released,
    removed_at, without_attempt, Arrival, ClientChangeView, ClientView, HistoryRowView,
    OutboxRowView, MAX_POSITION,
};
use crate::client::welcomes::{welcome_joining, welcome_verified};
use crate::crypto::{neutral_point, public_key_of, signature_by};
use crate::delivery::{Event, EventView, StoredRoomMessageView, WelcomeDeliveryView};
use crate::ids::{Ed25519SignatureBytes, MessageId, RoomId, UserId};
use crate::requests::{RequestView, ResponseView};
use crate::transcripts::{receipt_id, welcome_data};
use crate::wire::Wire;

verus! {

/// What holds of the tables at all times: requests stand in the journal once and
/// in the order of their numbers, messages and receipts stand once, no two events
/// stand at one position, and positions can be stored.
pub open spec fn client_in_order(view: ClientView) -> bool {
    &&& forall|i: int, j: int|
        0 <= i < j < view.outbox.len() ==> (#[trigger] view.outbox[i]).rowid < (
        #[trigger] view.outbox[j]).rowid && view.outbox[i].request_id != view.outbox[j].request_id
    &&& forall|i: int| 0 <= i < view.outbox.len() ==> (#[trigger] view.outbox[i]).rowid > 0
    &&& forall|a: MessageId, b: MessageId|
        #![trigger view.inbox.contains_key(a), view.inbox.contains_key(b)]
        view.inbox.contains_key(a) && view.inbox.contains_key(b) && a != b ==> !(view.inbox[a].room
            == view.inbox[b].room && view.inbox[a].sequence == view.inbox[b].sequence)
    &&& forall|room: RoomId| #[trigger]
        view.cursors.contains_key(room) ==> view.cursors[room] <= MAX_POSITION
    &&& view.welcome_cursor <= MAX_POSITION
    &&& forall|i: int, j: int|
        0 <= i < j < view.history.len() ==> (#[trigger] view.history[i]).message_id != (
        #[trigger] view.history[j]).message_id
    &&& owed_once(view.acks)
    &&& owed_once(view.welcome_acks)
}

/// Whether no receipt stands twice.
pub open spec fn owed_once(acks: Seq<(MessageId, RoomId)>) -> bool {
    forall|i: int, j: int| 0 <= i < j < acks.len() ==> (#[trigger] acks[i]).0 != (#[trigger] acks[j]).0
}

pub(crate) proof fn ack_index_is_first(acks: Seq<(MessageId, RoomId)>, id: MessageId)
    ensures
        ack_index(acks, id) <= acks.len(),
        ack_index(acks, id) < acks.len() ==> acks[ack_index(acks, id) as int].0 == id,
        forall|i: int|
            0 <= i < acks.len() && i < ack_index(acks, id) ==> (#[trigger] acks[i]).0 != id,
    decreases acks.len(),
{
    if acks.len() > 0 && acks[0].0 != id {
        let rest = acks.skip(1);
        ack_index_is_first(rest, id);
        assert forall|i: int| 0 <= i < acks.len() && i < ack_index(acks, id) implies (
        #[trigger] acks[i]).0 != id by {
            if i > 0 {
                assert(acks[i] == rest[i - 1]);
            }
        }
        if ack_index(rest, id) < rest.len() {
            assert(rest[ack_index(rest, id) as int] == acks[ack_index(acks, id) as int]);
        }
    }
}

pub(crate) proof fn history_index_is_first(history: Seq<HistoryRowView>, id: MessageId)
    ensures
        history_index(history, id) <= history.len(),
        history_index(
            history,
            id,
        ) < history.len() ==> history[history_index(history, id) as int].message_id
            == id,
        forall|i: int|
            0 <= i < history.len() && i < history_index(history, id) ==> (
            #[trigger] history[i]).message_id != id,
    decreases history.len(),
{
    if history.len() > 0 && history[0].message_id != id {
        let rest = history.skip(1);
        history_index_is_first(rest, id);
        assert forall|i: int| 0 <= i < history.len() && i < history_index(history, id) implies (
        #[trigger] history[i]).message_id != id by {
            if i > 0 {
                assert(history[i] == rest[i - 1]);
            }
        }
        if history_index(rest, id) < rest.len() {
            assert(
                rest[history_index(rest, id) as int] == history[history_index(history, id) as int]
            );
        }
    }
}

proof fn owed_once_kept(acks: Seq<(MessageId, RoomId)>, id: MessageId, room: RoomId)
    requires
        owed_once(acks),
    ensures
        ack_index(acks, id) >= acks.len() ==> owed_once(acks.push((id, room))),
        owed_once(removed_at(acks, ack_index(acks, id))),
        forall|i: int|
            0 <= i < removed_at(acks, ack_index(acks, id)).len() ==> (
            #[trigger] removed_at(acks, ack_index(acks, id))[i]).0 != id,
{
    ack_index_is_first(acks, id);
    let at = ack_index(acks, id);
    let longer = acks.push((id, room));
    if at >= acks.len() {
        assert forall|i: int, j: int| 0 <= i < j < longer.len() implies (#[trigger] longer[i]).0 != (
        #[trigger] longer[j]).0 by {
            assert(longer[i] == acks[i]);
        }
    }
    let left = removed_at(acks, at);
    if at < acks.len() {
        assert forall|i: int, j: int| 0 <= i < j < left.len() implies (#[trigger] left[i]).0 != (
        #[trigger] left[j]).0 by {
            let a = if i < at { i } else { i + 1 };
            let b = if j < at { j } else { j + 1 };
            assert(left[i] == acks[a]);
            assert(left[j] == acks[b]);
        }
        assert forall|i: int| 0 <= i < left.len() implies (#[trigger] left[i]).0 != id by {
            let a = if i < at { i } else { i + 1 };
            assert(left[i] == acks[a]);
            if a > at {
                assert(acks[at as int].0 != acks[a].0);
            }
        }
    }
}

/// Empty tables are in order.
pub proof fn empty_client_in_order()
    ensures
        client_in_order(empty_client()),
{
}

/// Where a request stands: at the first row of its identifier.
pub proof fn outbox_index_is_first(outbox: Seq<OutboxRowView>, id: MessageId)
    ensures
        outbox_index(outbox, id) <= outbox.len(),
        outbox_has(outbox, id) ==> outbox[outbox_index(outbox, id) as int].request_id == id,
        forall|i: int|
            0 <= i < outbox.len() && i < outbox_index(outbox, id) ==> (
            #[trigger] outbox[i]).request_id != id,
    decreases outbox.len(),
{
    if outbox.len() > 0 && outbox[0].request_id != id {
        let rest = outbox.skip(1);
        outbox_index_is_first(rest, id);
        assert forall|i: int| 0 <= i < outbox.len() && i < outbox_index(outbox, id) implies (
        #[trigger] outbox[i]).request_id != id by {
            if i > 0 {
                assert(outbox[i] == rest[i - 1]);
            }
        }
        if outbox_has(rest, id) {
            assert(rest[outbox_index(rest, id) as int] == outbox[outbox_index(outbox, id) as int]);
        }
    }
}

/// A request is in the journal where a row has its identifier.
proof fn outbox_has_row(outbox: Seq<OutboxRowView>, id: MessageId, i: int)
    requires
        0 <= i < outbox.len(),
        outbox[i].request_id == id,
    ensures
        outbox_has(outbox, id),
        outbox_index(outbox, id) <= i,
{
    outbox_index_is_first(outbox, id);
}

/// The newest number is that of the last row.
pub(crate) proof fn last_rowid_bounds(outbox: Seq<OutboxRowView>)
    ensures
        last_rowid(outbox) >= 0,
        forall|i: int| 0 <= i < outbox.len() ==> (#[trigger] outbox[i]).rowid <= last_rowid(outbox),
    decreases outbox.len(),
{
    if outbox.len() > 0 {
        last_rowid_bounds(outbox.drop_last());
        assert forall|i: int| 0 <= i < outbox.len() implies (#[trigger] outbox[i]).rowid
            <= last_rowid(outbox) by {
            if i < outbox.len() - 1 {
                assert(outbox[i] == outbox.drop_last()[i]);
            }
        }
    }
}

/// A change that the tables take keeps them in order.
pub proof fn client_change_keeps_order(view: ClientView, change: ClientChangeView)
    requires
        client_in_order(view),
        client_admitted(view, change),
    ensures
        client_in_order(client_applied(view, change)),
{
    let after = client_applied(view, change);
    match change {
        ClientChangeView::Outbox { rowid, request_id, kind, message } => {
            last_rowid_bounds(view.outbox);
            assert forall|i: int, j: int| 0 <= i < j < after.outbox.len() implies (
            #[trigger] after.outbox[i]).rowid < (#[trigger] after.outbox[j]).rowid
                && after.outbox[i].request_id != after.outbox[j].request_id by {
                assert(after.outbox[i] == view.outbox[i]);
                if j < view.outbox.len() {
                    assert(after.outbox[j] == view.outbox[j]);
                } else if view.outbox[i].request_id == request_id {
                    outbox_has_row(view.outbox, request_id, i);
                }
            }
            assert forall|i: int| 0 <= i < after.outbox.len() implies (
            #[trigger] after.outbox[i]).rowid > 0 by {
                if i < view.outbox.len() {
                    assert(after.outbox[i] == view.outbox[i]);
                }
            }
        },
        ClientChangeView::OutboxRemoved { request_id } => {
            let at = outbox_index(view.outbox, request_id);
            if at < view.outbox.len() {
                assert forall|i: int, j: int| 0 <= i < j < after.outbox.len() implies (
                #[trigger] after.outbox[i]).rowid < (#[trigger] after.outbox[j]).rowid
                    && after.outbox[i].request_id != after.outbox[j].request_id by {
                    let a = if i < at { i } else { i + 1 };
                    let b = if j < at { j } else { j + 1 };
                    assert(after.outbox[i] == view.outbox[a]);
                    assert(after.outbox[j] == view.outbox[b]);
                }
                assert forall|i: int| 0 <= i < after.outbox.len() implies (
                #[trigger] after.outbox[i]).rowid > 0 by {
                    let a = if i < at { i } else { i + 1 };
                    assert(after.outbox[i] == view.outbox[a]);
                }
            }
        },
        ClientChangeView::Inbox { id, room, sequence, record } => {
            assert forall|a: MessageId, b: MessageId|
                #![trigger after.inbox.contains_key(a), after.inbox.contains_key(b)]
                after.inbox.contains_key(a) && after.inbox.contains_key(b) && a != b implies !(
            after.inbox[a].room == after.inbox[b].room && after.inbox[a].sequence
                == after.inbox[b].sequence) by {
                if a != id {
                    assert(view.inbox.contains_key(a));
                }
                if b != id {
                    assert(view.inbox.contains_key(b));
                }
            }
        },
        ClientChangeView::InboxState { id, state } => {
            assert forall|a: MessageId, b: MessageId|
                #![trigger after.inbox.contains_key(a), after.inbox.contains_key(b)]
                after.inbox.contains_key(a) && after.inbox.contains_key(b) && a != b implies !(
            after.inbox[a].room == after.inbox[b].room && after.inbox[a].sequence
                == after.inbox[b].sequence) by {
                assert(view.inbox.contains_key(a));
                assert(view.inbox.contains_key(b));
            }
        },
        ClientChangeView::History { message_id, .. } => {
            history_index_is_first(view.history, message_id);
            assert forall|i: int, j: int| 0 <= i < j < after.history.len() implies (
            #[trigger] after.history[i]).message_id != (#[trigger] after.history[j]).message_id by {
                assert(after.history[i].message_id == view.history[i].message_id);
                if j < view.history.len() {
                    assert(after.history[j].message_id == view.history[j].message_id);
                }
            }
        },
        ClientChangeView::HistorySequence { message_id, .. } => {
            assert forall|i: int, j: int| 0 <= i < j < after.history.len() implies (
            #[trigger] after.history[i]).message_id != (#[trigger] after.history[j]).message_id by {
                assert(after.history[i].message_id == view.history[i].message_id);
                assert(after.history[j].message_id == view.history[j].message_id);
            }
        },
        ClientChangeView::HistoryRemoved { message_id } => {
            let at = history_index(view.history, message_id);
            assert forall|i: int, j: int| 0 <= i < j < after.history.len() implies (
            #[trigger] after.history[i]).message_id != (#[trigger] after.history[j]).message_id by {
                let a = if i < at { i } else { i + 1 };
                let b = if j < at { j } else { j + 1 };
                if at < view.history.len() {
                    assert(after.history[i] == view.history[a]);
                    assert(after.history[j] == view.history[b]);
                }
            }
        },
        ClientChangeView::Ack { message_id, room } => {
            owed_once_kept(view.acks, message_id, room);
        },
        ClientChangeView::AckCleared { message_id } => {
            owed_once_kept(view.acks, message_id, RoomId::of(Seq::empty()));
        },
        ClientChangeView::WelcomeAck { welcome_id, room } => {
            owed_once_kept(view.welcome_acks, welcome_id, room);
        },
        ClientChangeView::WelcomeAckCleared { welcome_id } => {
            owed_once_kept(view.welcome_acks, welcome_id, RoomId::of(Seq::empty()));
        },
        ClientChangeView::Cursor { room, sequence } => {
            assert forall|other: RoomId| #[trigger] after.cursors.contains_key(
                other,
            ) implies after.cursors[other]
                <= MAX_POSITION by {
                if other != room {
                    assert(view.cursors.contains_key(other));
                }
            }
        },
        _ => {},
    }
}

/// Changes that the tables take keep them in order.
pub proof fn client_changes_keep_order(view: ClientView, changes: Seq<ClientChangeView>)
    requires
        client_in_order(view),
        client_all_admitted(view, changes),
    ensures
        client_in_order(client_all_applied(view, changes)),
    decreases changes.len(),
{
    if changes.len() > 0 {
        client_changes_keep_order(view, changes.drop_last());
        client_change_keeps_order(client_all_applied(view, changes.drop_last()), changes.last());
    }
}

/// What stands: a contact's keys, the own identity and the own group keys.
pub open spec fn pins_stand(before: ClientView, after: ClientView) -> bool {
    &&& forall|user: UserId| #[trigger]
        before.contacts.contains_key(user) ==> after.contacts.contains_key(user)
            && after.contacts[user] == before.contacts[user]
    &&& before.identity is Some ==> after.identity == before.identity
    &&& before.mls_identity is Some ==> after.mls_identity == before.mls_identity
}

/// No change that the tables take replaces a contact's keys, the own identity or
/// the own group keys.
pub proof fn pins_are_never_replaced(view: ClientView, changes: Seq<ClientChangeView>)
    requires
        client_all_admitted(view, changes),
    ensures
        pins_stand(view, client_all_applied(view, changes)),
    decreases changes.len(),
{
    if changes.len() > 0 {
        pins_are_never_replaced(view, changes.drop_last());
        let before = client_all_applied(view, changes.drop_last());
        assert(client_admitted(before, changes.last()));
        let after = client_applied(before, changes.last());
        assert(pins_stand(before, after));
        assert forall|user: UserId| #[trigger] view.contacts.contains_key(user) implies after.contacts.contains_key(
            user,
        ) && after.contacts[user] == view.contacts[user] by {
            assert(before.contacts.contains_key(user));
        }
    }
}

/// The journaled message of an identifier, if there is one.
pub open spec fn journal_entry(view: ClientView, id: MessageId) -> Option<Seq<u8>> {
    if outbox_has(view.outbox, id) {
        Some(view.outbox[outbox_index(view.outbox, id) as int].message)
    } else {
        None
    }
}

proof fn outbox_index_push(outbox: Seq<OutboxRowView>, row: OutboxRowView, id: MessageId)
    ensures
        outbox_has(outbox, id) ==> outbox_index(outbox.push(row), id) == outbox_index(outbox, id),
        !outbox_has(outbox, id) ==> outbox_index(outbox.push(row), id) == (if row.request_id == id {
            outbox.len()
        } else {
            outbox.len() + 1
        }),
    decreases outbox.len(),
{
    let longer = outbox.push(row);
    if outbox.len() == 0 {
        assert(longer[0] == row);
        assert(longer.skip(1) =~= Seq::<OutboxRowView>::empty());
        assert(outbox_index(longer.skip(1), id) == 0);
    } else if outbox[0].request_id != id {
        outbox_index_push(outbox.skip(1), row, id);
        assert(longer.skip(1) =~= outbox.skip(1).push(row));
        assert(longer[0] == outbox[0]);
    } else {
        assert(longer[0] == outbox[0]);
    }
}

proof fn entry_after_removal(outbox: Seq<OutboxRowView>, removed: MessageId, id: MessageId)
    requires
        forall|i: int, j: int|
            0 <= i < j < outbox.len() ==> (#[trigger] outbox[i]).request_id != (
            #[trigger] outbox[j]).request_id,
    ensures
        ({
            let left = removed_at(outbox, outbox_index(outbox, removed));
            if id == removed {
                !outbox_has(left, id)
            } else {
                &&& outbox_has(left, id) == outbox_has(outbox, id)
                &&& outbox_has(outbox, id) ==> left[outbox_index(left, id) as int]
                    == outbox[outbox_index(outbox, id) as int]
            }
        }),
{
    let at = outbox_index(outbox, removed);
    let left = removed_at(outbox, at);
    outbox_index_is_first(outbox, removed);
    outbox_index_is_first(outbox, id);
    outbox_index_is_first(left, id);
    if at < outbox.len() {
        if outbox_has(left, id) {
            let i = outbox_index(left, id) as int;
            let was = if i < at { i } else { i + 1 };
            assert(left[i] == outbox[was]);
            assert(outbox[was].request_id == id);
            outbox_has_row(outbox, id, was);
            assert(was != at);
            if id == removed {
                assert(outbox[at as int].request_id != outbox[was].request_id);
            } else {
                let first = outbox_index(outbox, id) as int;
                if first < was {
                    assert(outbox[first].request_id != outbox[was].request_id);
                }
            }
        }
        if outbox_has(outbox, id) && id != removed {
            let i = outbox_index(outbox, id) as int;
            assert(i != at);
            let now = if i < at { i } else { i - 1 };
            assert(left[now] == outbox[i]);
            outbox_has_row(left, id, now);
        }
    }
}

/// What is journaled is never overwritten: whatever the tables take, a request
/// keeps its exact message until it leaves the journal.
pub proof fn journaled_message_stays(view: ClientView, change: ClientChangeView, id: MessageId)
    requires
        client_in_order(view),
        client_admitted(view, change),
        journal_entry(view, id) is Some,
    ensures
        change == (ClientChangeView::OutboxRemoved { request_id: id }) ==> journal_entry(
            client_applied(view, change),
            id,
        ) is None,
        change != (ClientChangeView::OutboxRemoved { request_id: id }) ==> journal_entry(
            client_applied(view, change),
            id,
        ) == journal_entry(view, id),
{
    match change {
        ClientChangeView::Outbox { rowid, request_id, kind, message } => {
            let row = OutboxRowView { rowid, request_id, kind, message };
            outbox_index_push(view.outbox, row, id);
            assert(view.outbox.push(row)[outbox_index(view.outbox, id) as int]
                == view.outbox[outbox_index(view.outbox, id) as int]);
        },
        ClientChangeView::OutboxRemoved { request_id } => {
            entry_after_removal(view.outbox, request_id, id);
        },
        _ => {},
    }
}

/// Changes behind changes do what both do, one after the other.
pub proof fn applied_in_parts(
    view: ClientView,
    first: Seq<ClientChangeView>,
    rest: Seq<ClientChangeView>,
)
    ensures
        client_all_applied(view, first + rest) == client_all_applied(
            client_all_applied(view, first),
            rest,
        ),
        client_all_admitted(view, first + rest) == (client_all_admitted(view, first)
            && client_all_admitted(client_all_applied(view, first), rest)),
    decreases rest.len(),
{
    if rest.len() == 0 {
        assert(first + rest =~= first);
    } else {
        applied_in_parts(view, first, rest.drop_last());
        assert((first + rest).drop_last() =~= first + rest.drop_last());
        assert((first + rest).last() == rest.last());
    }
}

pub(crate) proof fn applied_nothing(view: ClientView)
    ensures
        client_all_applied(view, Seq::empty()) == view,
        client_all_admitted(view, Seq::empty()),
{
}

pub(crate) proof fn applied_one(view: ClientView, change: ClientChangeView)
    ensures
        client_all_applied(view, seq![change]) == client_applied(view, change),
        client_all_admitted(view, seq![change]) == client_admitted(view, change),
{
    assert(seq![change].drop_last() =~= Seq::<ClientChangeView>::empty());
    applied_nothing(view);
}

pub(crate) proof fn applied_two(view: ClientView, first: ClientChangeView, second: ClientChangeView)
    ensures
        client_all_applied(view, seq![first, second]) == client_applied(
            client_applied(view, first),
            second,
        ),
        client_all_admitted(view, seq![first, second]) == (client_admitted(view, first)
            && client_admitted(client_applied(view, first), second)),
{
    assert(seq![first, second].drop_last() =~= seq![first]);
    applied_one(view, first);
}

pub(crate) proof fn applied_three(
    view: ClientView,
    first: ClientChangeView,
    second: ClientChangeView,
    third: ClientChangeView,
)
    ensures
        client_all_applied(view, seq![first, second, third]) == client_applied(
            client_applied(client_applied(view, first), second),
            third,
        ),
        client_all_admitted(view, seq![first, second, third]) == (client_admitted(view, first)
            && client_admitted(client_applied(view, first), second) && client_admitted(
            client_applied(client_applied(view, first), second),
            third,
        )),
{
    assert(seq![first, second, third].drop_last() =~= seq![first, second]);
    applied_two(view, first, second);
}

/// A request that is journaled is found with exactly its message, and nothing
/// else changes.
pub proof fn journaled_request_is_found(view: ClientView, id: MessageId, request: RequestView)
    requires
        journaled(view.outbox, id, request) is Ok,
    ensures
        ({
            let changes = journaled(view.outbox, id, request)->Ok_0;
            let after = client_all_applied(view, changes);
            &&& client_all_admitted(view, changes)
            &&& journal_entry(after, id) == Some(journal_message(id, request))
            &&& after == (ClientView { outbox: after.outbox, ..view })
            &&& view.outbox.is_prefix_of(after.outbox)
            &&& after.outbox.len() <= view.outbox.len() + 1
            &&& forall|other: MessageId|
                other != id ==> #[trigger] journal_entry(after, other) == journal_entry(view, other)
        }),
{
    let changes = journaled(view.outbox, id, request)->Ok_0;
    let after = client_all_applied(view, changes);
    let message = journal_message(id, request);
    if outbox_has(view.outbox, id) {
        applied_nothing(view);
        assert(changes =~= Seq::<ClientChangeView>::empty());
    } else {
        let row = OutboxRowView {
            rowid: (last_rowid(view.outbox) + 1) as i64,
            request_id: id,
            kind: journal_kind(),
            message,
        };
        applied_one(
            view,
            ClientChangeView::Outbox {
                rowid: row.rowid,
                request_id: id,
                kind: journal_kind(),
                message,
            },
        );
        assert(after.outbox == view.outbox.push(row));
        outbox_index_push(view.outbox, row, id);
        assert forall|other: MessageId| other != id implies #[trigger] journal_entry(after, other)
            == journal_entry(view, other) by {
            outbox_index_push(view.outbox, row, other);
            if outbox_has(view.outbox, other) {
                assert(after.outbox[outbox_index(view.outbox, other) as int]
                    == view.outbox[outbox_index(view.outbox, other) as int]);
            }
        }
    }
}

/// Receipts are journaled whatever the budget.
pub proof fn receipts_need_no_budget(
    outbox: Seq<OutboxRowView>,
    id: MessageId,
    events: Seq<MessageId>,
    welcomes: Seq<u64>,
    budget: u64,
    size: DatabaseSize,
)
    ensures
        journaling(outbox, budget, id, RequestView::Acknowledge { events, welcomes }, size)
            == journaled(outbox, id, RequestView::Acknowledge { events, welcomes }),
{
}

/// What a processed event leaves: its room is processed up to it, its receipt is
/// journaled, and the other rooms, messages and contacts are as they were.
proof fn finishing_effect(view: ClientView, user: UserId, event: EventView, state: Arrival)
    requires
        event_finishing(view.outbox, user, event, state) is Ok,
    ensures
        ({
            let changes = event_finishing(view.outbox, user, event, state)->Ok_0;
            let after = client_all_applied(view, changes);
            let receipt = receipt_id(user, seq![event.id], Seq::empty());
            &&& client_all_admitted(view, changes)
            &&& after == (ClientView {
                outbox: after.outbox,
                inbox: after.inbox,
                cursors: view.cursors.insert(
                    event.operation.room,
                    (event.operation.parent + 1) as u64,
                ),
                ..view
            })
            &&& journal_entry(after, receipt) == Some(
                journal_message(receipt, event_receipt(event.id)),
            )
            &&& forall|other: MessageId|
                other != receipt ==> #[trigger] journal_entry(after, other) == journal_entry(
                    view,
                    other,
                )
            &&& after.inbox.dom() == view.inbox.dom()
            &&& view.inbox.contains_key(event.id) ==> after.inbox[event.id].state == state
        }),
{
    let changes = event_finishing(view.outbox, user, event, state)->Ok_0;
    let receipt = receipt_id(user, seq![event.id], Seq::empty());
    let journal = journaled(view.outbox, receipt, event_receipt(event.id))->Ok_0;
    let state_change = ClientChangeView::InboxState { id: event.id, state };
    let cursor_change = ClientChangeView::Cursor {
        room: event.operation.room,
        sequence: (event.operation.parent + 1) as u64,
    };
    applied_two(view, state_change, cursor_change);
    let middle = client_applied(client_applied(view, state_change), cursor_change);
    assert(middle.outbox == view.outbox);
    applied_in_parts(view, seq![state_change, cursor_change], journal);
    journaled_request_is_found(middle, receipt, event_receipt(event.id));
    let after = client_all_applied(view, changes);
    assert(after.inbox.dom() =~= view.inbox.dom());
    assert forall|other: MessageId| other != receipt implies #[trigger] journal_entry(after, other)
        == journal_entry(view, other) by {
        assert(journal_entry(middle, other) == journal_entry(view, other));
    }
}

/// An event of another member that the group took moves its room on by exactly
/// one position, its receipt is journaled, and its message is kept, where it holds
/// one; no other room moves, no other request changes, and nothing else does.
pub proof fn applied_event_moves_one_room_by_one(
    view: ClientView,
    user: UserId,
    event: EventView,
    processed: ProcessedView,
)
    requires
        room_cursor(view, event.operation.room) == event.operation.parent,
        event_applied(view, user, event, processed) is Ok,
    ensures
        ({
            let changes = event_applied(view, user, event, processed)->Ok_0;
            let after = client_all_applied(view, changes);
            let receipt = receipt_id(user, seq![event.id], Seq::empty());
            &&& client_all_admitted(view, changes)
            &&& room_cursor(after, event.operation.room) == event.operation.parent + 1
            &&& forall|other: RoomId|
                other != event.operation.room ==> #[trigger] room_cursor(after, other)
                    == room_cursor(view, other)
            &&& journal_entry(after, receipt) == Some(
                journal_message(receipt, event_receipt(event.id)),
            )
            &&& view.inbox.contains_key(event.id) ==> after.inbox[event.id].state
                == Arrival::Applied
            &&& forall|other: MessageId|
                other != receipt ==> #[trigger] journal_entry(after, other) == journal_entry(
                    view,
                    other,
                )
            &&& after == (ClientView {
                outbox: after.outbox,
                inbox: after.inbox,
                cursors: after.cursors,
                history: match processed {
                    ProcessedView::Application { plaintext, author } => client_applied(
                        view,
                        ClientChangeView::History {
                            message_id: event.id,
                            room: event.operation.room,
                            sequence: (event.operation.parent + 1) as u64,
                            author: UserId::of(author),
                            plaintext,
                        },
                    ).history,
                    _ => view.history,
                },
                ..view
            })
        }),
{
    match processed {
        ProcessedView::Application { plaintext, author } => {
            let recorded = ClientChangeView::History {
                message_id: event.id,
                room: event.operation.room,
                sequence: (event.operation.parent + 1) as u64,
                author: UserId::of(author),
                plaintext,
            };
            let middle = client_applied(view, recorded);
            applied_one(view, recorded);
            let finished = event_finishing(view.outbox, user, event, Arrival::Applied)->Ok_0;
            assert(middle.outbox == view.outbox);
            finishing_effect(middle, user, event, Arrival::Applied);
            applied_in_parts(view, seq![recorded], finished);
            let after = client_all_applied(middle, finished);
            let receipt = receipt_id(user, seq![event.id], Seq::empty());
            assert forall|other: MessageId| other != receipt implies #[trigger] journal_entry(
                after,
                other,
            ) == journal_entry(view, other) by {
                assert(journal_entry(middle, other) == journal_entry(view, other));
            }
        },
        _ => {
            finishing_effect(view, user, event, Arrival::Applied);
        },
    }
}

/// An event that was refused for good moves its room on by exactly one position
/// and leaves no message; one that is blocked moves nothing. No other room moves, and
/// nothing else changes but the event's state and its receipt.
pub proof fn refused_event_leaves_no_message(
    view: ClientView,
    user: UserId,
    event: EventView,
    fault: ProcessingFault,
)
    requires
        room_cursor(view, event.operation.room) == event.operation.parent,
        event_refused(view, user, event, fault) is Ok,
    ensures
        ({
            let (goes_on, changes) = event_refused(view, user, event, fault)->Ok_0;
            let after = client_all_applied(view, changes);
            let receipt = receipt_id(user, seq![event.id], Seq::empty());
            &&& client_all_admitted(view, changes)
            &&& after == (ClientView {
                outbox: after.outbox,
                inbox: after.inbox,
                cursors: after.cursors,
                ..view
            })
            &&& !goes_on ==> after.outbox == view.outbox
            &&& forall|other: MessageId|
                other != receipt ==> #[trigger] journal_entry(after, other) == journal_entry(
                    view,
                    other,
                )
            &&& goes_on == (fault == ProcessingFault::Rejected)
            &&& room_cursor(after, event.operation.room) == (if goes_on {
                event.operation.parent + 1
            } else {
                event.operation.parent as int
            })
            &&& forall|other: RoomId|
                other != event.operation.room ==> #[trigger] room_cursor(after, other)
                    == room_cursor(view, other)
        }),
{
    match fault {
        ProcessingFault::Blocked => {
            applied_one(
                view,
                ClientChangeView::InboxState { id: event.id, state: Arrival::Blocked },
            );
        },
        ProcessingFault::Rejected => {
            finishing_effect(view, user, event, Arrival::Rejected);
        },
    }
}

/// An own event that is in its room ends its attempt: the request leaves the
/// journal, what it was for is done, its message gets its position, and the room
/// moves on by exactly one position. No other request, intent or room changes.
pub proof fn own_event_ends_its_attempt(view: ClientView, user: UserId, event: EventView)
    requires
        client_in_order(view),
        room_cursor(view, event.operation.room) == event.operation.parent,
        own_settling(view, user, event) is Ok,
        receipt_id(user, seq![event.id], Seq::empty()) != event.id,
    ensures
        ({
            let changes = own_settling(view, user, event)->Ok_0;
            let after = client_all_applied(view, changes);
            let receipt = receipt_id(user, seq![event.id], Seq::empty());
            &&& client_all_admitted(view, changes)
            &&& journal_entry(after, event.id) is None
            &&& journal_entry(after, receipt) == Some(
                journal_message(receipt, event_receipt(event.id)),
            )
            &&& forall|other: MessageId|
                other != event.id && other != receipt ==> #[trigger] journal_entry(after, other)
                    == journal_entry(view, other)
            &&& forall|room: RoomId| #[trigger]
                after.intents.contains_key(room) ==> after.intents[room].attempt != Some(event.id)
            &&& after == (ClientView {
                outbox: after.outbox,
                inbox: after.inbox,
                cursors: after.cursors,
                intents: without_attempt(view.intents, event.id),
                history: client_applied(
                    view,
                    ClientChangeView::HistorySequence {
                        message_id: event.id,
                        sequence: (event.operation.parent + 1) as u64,
                    },
                ).history,
                ..view
            })
            &&& room_cursor(after, event.operation.room) == event.operation.parent + 1
            &&& forall|other: RoomId|
                other != event.operation.room ==> #[trigger] room_cursor(after, other)
                    == room_cursor(view, other)
        }),
{
    let removed = ClientChangeView::OutboxRemoved { request_id: event.id };
    let done = ClientChangeView::IntentsRemoved { attempt: event.id };
    let placed = ClientChangeView::HistorySequence {
        message_id: event.id,
        sequence: (event.operation.parent + 1) as u64,
    };
    let first = seq![removed, done, placed];
    applied_three(view, removed, done, placed);
    let middle = client_applied(client_applied(client_applied(view, removed), done), placed);
    assert(middle.outbox == outbox_without(view.outbox, Some(event.id)));
    let finished = event_finishing(middle.outbox, user, event, Arrival::Applied)->Ok_0;
    finishing_effect(middle, user, event, Arrival::Applied);
    applied_in_parts(view, first, finished);
    entry_after_removal(view.outbox, event.id, event.id);
    assert(journal_entry(middle, event.id) is None);
    let after = client_all_applied(view, own_settling(view, user, event)->Ok_0);
    let receipt = receipt_id(user, seq![event.id], Seq::empty());
    assert forall|other: MessageId|
        other != event.id && other != receipt implies #[trigger] journal_entry(after, other)
        == journal_entry(view, other) by {
        entry_after_removal(view.outbox, event.id, other);
        assert(journal_entry(middle, other) == journal_entry(view, other));
    }
}

/// The relay cannot change its mind: once an event was received, another one
/// under its identifier or at its position is refused, and the same one changes
/// nothing.
pub proof fn equivocation_is_refused(
    view: ClientView,
    budget: u64,
    size: DatabaseSize,
    event: EventView,
    other: EventView,
)
    requires
        receiving(view, budget, event, size) is Ok,
        !view.inbox.contains_key(event.id),
        Event::bounded(event),
        Event::bounded(other),
        other != event,
        other.id == event.id || (other.operation.room == event.operation.room
            && other.operation.parent == event.operation.parent && !view.inbox.contains_key(other.id)),
        Event::encoded(other).len() <= crate::delivery::MAX_PAYLOAD,
        other.operation.parent < MAX_POSITION,
    ensures
        ({
            let changes = receiving(view, budget, event, size)->Ok_0;
            let after = client_all_applied(view, changes);
            &&& client_all_admitted(view, changes)
            &&& receiving(after, budget, event, size) == Ok::<Seq<ClientChangeView>, EngineError>(
                unchanged(),
            )
            &&& receiving(after, budget, other, size) == Err::<Seq<ClientChangeView>, EngineError>(
                EngineError::Refused(Refusal::Equivocation),
            )
        }),
{
    let sequence = Event::position(event)->Some_0;
    let change = ClientChangeView::Inbox {
        id: event.id,
        room: event.operation.room,
        sequence,
        record: Event::encoded(event),
    };
    let changes = receiving(view, budget, event, size)->Ok_0;
    assert(changes == seq![change]);
    applied_one(view, change);
    let after = client_all_applied(view, changes);
    assert(after.inbox.contains_key(event.id));
    assert(position_taken(after.inbox, event.operation.room, sequence));
    if Event::encoded(other) == Event::encoded(event) {
        crate::protocol::encoding_injective::<Event>(other, event);
    }
}

/// An answer that the relay cannot serve now leaves everything as it is: the same
/// request goes out again.
pub proof fn retained_request_is_unchanged(
    view: ClientView,
    budget: u64,
    user: UserId,
    id: MessageId,
    request: RequestView,
    response: ResponseView,
    size: DatabaseSize,
    check: Result<(), PackageFault>,
)
    requires
        completion(view, budget, user, id, request, response, size, check) matches Ok(done)
            && done.note == Note::Retained,
    ensures
        ({
            let done = completion(view, budget, user, id, request, response, size, check)->Ok_0;
            &&& done.step == GroupStep::Nothing
            &&& client_all_applied(view, done.changes) == view
        }),
{
    applied_nothing(view);
}

/// Where one request left the journal, the others are there as they were.
proof fn other_entries_stay(view: ClientView, after: ClientView, id: MessageId)
    requires
        client_in_order(view),
        after.outbox == outbox_without(view.outbox, Some(id)),
    ensures
        forall|other: MessageId|
            other != id ==> #[trigger] journal_entry(after, other) == journal_entry(view, other),
{
    assert forall|other: MessageId| other != id implies #[trigger] journal_entry(after, other)
        == journal_entry(view, other) by {
        entry_after_removal(view.outbox, id, other);
    }
}

/// A conflict gives up the attempt and keeps what it was for: the request and the
/// own text leave, and the same thing is attempted again. No other request or intent
/// changes.
pub proof fn conflict_reopens_the_intent(
    view: ClientView,
    budget: u64,
    user: UserId,
    id: MessageId,
    request: RequestView,
    response: ResponseView,
    size: DatabaseSize,
    check: Result<(), PackageFault>,
    room: RoomId,
)
    requires
        client_in_order(view),
        view.intents.contains_key(room),
        view.intents[room].attempt == Some(id),
        completion(view, budget, user, id, request, response, size, check) matches Ok(done)
            && done.note is Conflict,
    ensures
        ({
            let done = completion(view, budget, user, id, request, response, size, check)->Ok_0;
            let after = client_all_applied(view, done.changes);
            &&& client_all_admitted(view, done.changes)
            &&& journal_entry(after, id) is None
            &&& after.intents.contains_key(room)
            &&& after.intents[room] == (crate::client::tables::IntentRowView {
                attempt: None,
                ..view.intents[room]
            })
            &&& !attempt_unresolved(after, room)
            &&& forall|other: MessageId|
                other != id ==> #[trigger] journal_entry(after, other) == journal_entry(view, other)
            &&& after == (ClientView {
                outbox: after.outbox,
                history: removed_at(view.history, history_index(view.history, id)),
                intents: released(view.intents, id),
                ..view
            })
        }),
{
    let done = completion(view, budget, user, id, request, response, size, check)->Ok_0;
    let removed = ClientChangeView::OutboxRemoved { request_id: id };
    let forgotten = ClientChangeView::HistoryRemoved { message_id: id };
    let reopened = ClientChangeView::IntentsReleased { attempt: id };
    assert(done.changes == seq![removed, forgotten, reopened]);
    applied_three(view, removed, forgotten, reopened);
    entry_after_removal(view.outbox, id, id);
    other_entries_stay(view, client_all_applied(view, done.changes), id);
}

/// An attempt is journaled before anything goes out, and its room waits for its
/// outcome. The own text is kept, where it sends one; what is wanted in other rooms,
/// the other requests and everything else stay as they are.
pub proof fn attempt_is_journaled(
    view: ClientView,
    budget: u64,
    user: UserId,
    secret: Seq<u8>,
    room: RoomId,
    id: MessageId,
    epoch: u64,
    body: Seq<u8>,
    welcome: Seq<u8>,
    size: DatabaseSize,
)
    requires
        planned_attempt(view, room, id, true, false) matches Ok(plan) && plan != AttemptPlanView::Skip,
        attempting(
            view,
            budget,
            user,
            secret,
            room,
            id,
            planned_attempt(view, room, id, true, false)->Ok_0,
            epoch,
            body,
            welcome,
            size,
        ) is Ok,
        !view.inbox.contains_key(id),
    ensures
        ({
            let plan = planned_attempt(view, room, id, true, false)->Ok_0;
            let changes = attempting(
                view,
                budget,
                user,
                secret,
                room,
                id,
                plan,
                epoch,
                body,
                welcome,
                size,
            )->Ok_0;
            let after = client_all_applied(view, changes);
            let parent = room_cursor(view, room);
            &&& client_all_admitted(view, changes)
            &&& attempt_unresolved(after, room)
            &&& after.intents[room] == (crate::client::tables::IntentRowView {
                attempt: Some(id),
                ..view.intents[room]
            })
            &&& forall|other: RoomId|
                #![trigger after.intents.contains_key(other)]
                other != room ==> after.intents.contains_key(other) == view.intents.contains_key(
                    other,
                ) && after.intents[other] == view.intents[other]
            &&& forall|other: MessageId|
                other != id ==> #[trigger] journal_entry(after, other) == journal_entry(view, other)
            &&& view.outbox.is_prefix_of(after.outbox)
            &&& after.outbox.len() <= view.outbox.len() + 1
            &&& after == (ClientView {
                intents: after.intents,
                outbox: after.outbox,
                history: match plan {
                    AttemptPlanView::Send { plaintext, .. } => client_applied(
                        view,
                        ClientChangeView::History {
                            message_id: id,
                            room,
                            sequence: (parent + 1) as u64,
                            author: user,
                            plaintext,
                        },
                    ).history,
                    _ => view.history,
                },
                ..view
            })
            &&& journal_entry(after, id) == Some(
                journal_message(
                    id,
                    match plan {
                        AttemptPlanView::Reserve { recipient } => RequestView::ReserveKeyPackage {
                            recipient,
                        },
                        AttemptPlanView::Add { recipient, .. } => RequestView::AppendRoomOperation(
                            adding(room, id, secret, recipient, parent, epoch, body, welcome),
                        ),
                        _ => RequestView::AppendRoomOperation(sending(room, parent, epoch, body)),
                    },
                ),
            )
        }),
{
    let plan = planned_attempt(view, room, id, true, false)->Ok_0;
    match plan {
        AttemptPlanView::Reserve { recipient } => {
            attempt_request_effect(
                view,
                budget,
                room,
                id,
                RequestView::ReserveKeyPackage { recipient },
                size,
            );
        },
        AttemptPlanView::Add { recipient, package, parent, authenticated_data } => {
            attempt_request_effect(
                view,
                budget,
                room,
                id,
                RequestView::AppendRoomOperation(
                    adding(room, id, secret, recipient, parent, epoch, body, welcome),
                ),
                size,
            );
        },
        AttemptPlanView::Send { plaintext, parent, authenticated_data } => {
            let operation = sending(room, parent, epoch, body);
            let recorded = ClientChangeView::History {
                message_id: id,
                room,
                sequence: (parent + 1) as u64,
                author: user,
                plaintext,
            };
            let middle = client_applied(view, recorded);
            applied_one(view, recorded);
            let request = RequestView::AppendRoomOperation(operation);
            let rest = attempt_request(view, budget, room, id, request, size)->Ok_0;
            assert(attempt_request(middle, budget, room, id, request, size) == attempt_request(
                view,
                budget,
                room,
                id,
                request,
                size,
            ));
            attempt_request_effect(middle, budget, room, id, request, size);
            applied_in_parts(view, seq![recorded], rest);
            let after = client_all_applied(middle, rest);
            assert forall|other: MessageId| other != id implies #[trigger] journal_entry(
                after,
                other,
            ) == journal_entry(view, other) by {
                assert(journal_entry(middle, other) == journal_entry(view, other));
            }
        },
        AttemptPlanView::Skip => {},
    }
}

proof fn attempt_request_effect(
    view: ClientView,
    budget: u64,
    room: RoomId,
    id: MessageId,
    request: RequestView,
    size: DatabaseSize,
)
    requires
        view.intents.contains_key(room),
        attempt_request(view, budget, room, id, request, size) is Ok,
        !view.inbox.contains_key(id),
        !(request is Acknowledge),
    ensures
        ({
            let changes = attempt_request(view, budget, room, id, request, size)->Ok_0;
            let after = client_all_applied(view, changes);
            &&& client_all_admitted(view, changes)
            &&& attempt_unresolved(after, room)
            &&& after == (ClientView {
                intents: view.intents.insert(
                    room,
                    crate::client::tables::IntentRowView {
                        attempt: Some(id),
                        ..view.intents[room]
                    },
                ),
                outbox: after.outbox,
                ..view
            })
            &&& view.outbox.is_prefix_of(after.outbox)
            &&& after.outbox.len() <= view.outbox.len() + 1
            &&& journal_entry(after, id) == Some(journal_message(id, request))
            &&& forall|other: MessageId|
                other != id ==> #[trigger] journal_entry(after, other) == journal_entry(view, other)
        }),
{
    let journal = journaled(view.outbox, id, request)->Ok_0;
    let attempt = ClientChangeView::IntentAttempt { room, attempt: id };
    journaled_request_is_found(view, id, request);
    let middle = client_all_applied(view, journal);
    applied_one(middle, attempt);
    applied_in_parts(view, journal, seq![attempt]);
    let after = client_applied(middle, attempt);
    assert forall|other: MessageId| other != id implies #[trigger] journal_entry(after, other)
        == journal_entry(view, other) by {
        assert(journal_entry(middle, other) == journal_entry(view, other));
    }
}

/// A room that was joined starts at the position of its welcome, and the receipt
/// of the welcome is journaled. No other room or request changes.
pub proof fn joined_room_starts_at_its_welcome(
    view: ClientView,
    user: UserId,
    cursor: u64,
    welcome: WelcomeDeliveryView,
)
    requires
        welcome_joining(view, user, cursor, welcome, false) is Ok,
    ensures
        ({
            let changes = welcome_joining(view, user, cursor, welcome, false)->Ok_0;
            let after = client_all_applied(view, changes);
            let receipt = receipt_id(user, Seq::empty(), seq![cursor]);
            &&& client_all_admitted(view, changes)
            &&& room_cursor(after, welcome.room) == welcome.sequence
            &&& forall|other: RoomId|
                other != welcome.room ==> #[trigger] room_cursor(after, other) == room_cursor(
                    view,
                    other,
                )
            &&& after.rooms.contains_key(welcome.room)
            &&& view.welcomes.contains_key(cursor) ==> after.welcomes[cursor].state
                == Arrival::Applied
            &&& journal_entry(after, receipt) == Some(
                journal_message(receipt, crate::client::journal::welcome_receipt(cursor)),
            )
            &&& forall|other: MessageId|
                other != receipt ==> #[trigger] journal_entry(after, other) == journal_entry(
                    view,
                    other,
                )
            &&& forall|other: RoomId|
                #![trigger after.rooms.contains_key(other)]
                other != welcome.room ==> after.rooms.contains_key(other)
                    == view.rooms.contains_key(other) && after.rooms[other] == view.rooms[other]
            &&& after == (ClientView {
                outbox: after.outbox,
                cursors: after.cursors,
                rooms: after.rooms,
                welcomes: after.welcomes,
                ..view
            })
        }),
{
    let changes = welcome_joining(view, user, cursor, welcome, false)->Ok_0;
    let upsert = room_upsert(welcome.room, welcome.room_name, "welcomed"@)->Ok_0;
    let start = ClientChangeView::Cursor { room: welcome.room, sequence: welcome.sequence };
    let state = ClientChangeView::WelcomeState { cursor, state: Arrival::Applied };
    let receipt = receipt_id(user, Seq::empty(), seq![cursor]);
    let request = crate::client::journal::welcome_receipt(cursor);
    let first = seq![start] + upsert + seq![state];
    assert(first =~= seq![start, upsert[0], state]);
    applied_three(view, start, upsert[0], state);
    let middle = client_all_applied(view, first);
    assert(middle.outbox == view.outbox);
    journaled_request_is_found(middle, receipt, request);
    applied_in_parts(view, first, journaled(view.outbox, receipt, request)->Ok_0);
    let after = client_all_applied(view, changes);
    assert forall|other: MessageId| other != receipt implies #[trigger] journal_entry(after, other)
        == journal_entry(view, other) by {
        assert(journal_entry(middle, other) == journal_entry(view, other));
    }
}

/// What an answer leads to can always be written.
pub proof fn answer_can_be_written(
    view: ClientView,
    budget: u64,
    user: UserId,
    id: MessageId,
    request: RequestView,
    response: ResponseView,
    size: DatabaseSize,
    check: Result<(), PackageFault>,
)
    requires
        completion(view, budget, user, id, request, response, size, check) is Ok,
    ensures
        client_all_admitted(
            view,
            completion(view, budget, user, id, request, response, size, check)->Ok_0.changes,
        ),
{
    let changes = completion(view, budget, user, id, request, response, size, check)->Ok_0.changes;
    match response {
        ResponseView::RoomCreated { room } => {
            let upsert = room_upsert(room, request->CreateRoom_name, "created"@)->Ok_0;
            let removed = ClientChangeView::OutboxRemoved { request_id: id };
            if view.cursors.contains_key(room) {
                assert(changes =~= seq![upsert[0], removed]);
                applied_two(view, upsert[0], removed);
            } else {
                let start = ClientChangeView::Cursor { room, sequence: 0 };
                assert(changes =~= seq![upsert[0], start, removed]);
                applied_three(view, upsert[0], start, removed);
            }
        },
        ResponseView::HeadConflict { .. } => {
            applied_three(view, changes[0], changes[1], changes[2]);
        },
        ResponseView::AppendAccepted { event } => {
            if changes.len() == 0 {
                applied_nothing(view);
                assert(changes =~= Seq::<ClientChangeView>::empty());
            } else {
                applied_one(view, changes[0]);
                assert(changes =~= seq![changes[0]]);
            }
        },
        ResponseView::KeyPackage { .. } => {
            applied_two(view, changes[0], changes[1]);
        },
        ResponseView::Rejected(_) => {
            if changes.len() == 0 {
                applied_nothing(view);
                assert(changes =~= Seq::<ClientChangeView>::empty());
            } else {
                applied_two(view, changes[0], changes[1]);
            }
        },
        _ => {
            applied_one(view, changes[0]);
            assert(changes =~= seq![changes[0]]);
        },
    }
}

/// A request that is refused for good leaves the journal, and what it was for is
/// not attempted again. No other request or intent changes.
pub proof fn rejected_request_is_forgotten(
    view: ClientView,
    budget: u64,
    user: UserId,
    id: MessageId,
    request: RequestView,
    response: ResponseView,
    size: DatabaseSize,
    check: Result<(), PackageFault>,
)
    requires
        client_in_order(view),
        completion(view, budget, user, id, request, response, size, check) matches Ok(done)
            && done.note is Rejected,
    ensures
        ({
            let done = completion(view, budget, user, id, request, response, size, check)->Ok_0;
            let after = client_all_applied(view, done.changes);
            &&& journal_entry(after, id) is None
            &&& forall|room: RoomId| #[trigger]
                after.intents.contains_key(room) <==> (view.intents.contains_key(room)
                    && view.intents[room].attempt != Some(id))
            &&& forall|other: MessageId|
                other != id ==> #[trigger] journal_entry(after, other) == journal_entry(view, other)
            &&& after == (ClientView {
                outbox: after.outbox,
                intents: without_attempt(view.intents, id),
                ..view
            })
        }),
{
    let done = completion(view, budget, user, id, request, response, size, check)->Ok_0;
    let forgotten = ClientChangeView::IntentsRemoved { attempt: id };
    let removed = ClientChangeView::OutboxRemoved { request_id: id };
    assert(done.changes == seq![forgotten, removed]);
    applied_two(view, forgotten, removed);
    entry_after_removal(view.outbox, id, id);
    other_entries_stay(view, client_all_applied(view, done.changes), id);
}

/// A reserved package waits for the next attempt of its room, the request leaves the
/// journal, and nothing else changes.
pub proof fn reserved_package_waits_in_its_room(
    view: ClientView,
    budget: u64,
    user: UserId,
    id: MessageId,
    recipient: UserId,
    package: Seq<u8>,
    size: DatabaseSize,
    check: Result<(), PackageFault>,
)
    requires
        completion(
            view,
            budget,
            user,
            id,
            RequestView::ReserveKeyPackage { recipient },
            ResponseView::KeyPackage { recipient, package },
            size,
            check,
        ) is Ok,
    ensures
        ({
            let done = completion(
                view,
                budget,
                user,
                id,
                RequestView::ReserveKeyPackage { recipient },
                ResponseView::KeyPackage { recipient, package },
                size,
                check,
            )->Ok_0;
            let after = client_all_applied(view, done.changes);
            &&& after == (ClientView {
                intents: after.intents,
                outbox: removed_at(view.outbox, outbox_index(view.outbox, id)),
                ..view
            })
            &&& exists|room: RoomId|
                #![trigger view.intents.contains_key(room)]
                view.intents.contains_key(room) && view.intents[room].attempt == Some(id)
                    && view.intents[room].target == Some(recipient) && after.intents
                    == view.intents.insert(
                    room,
                    crate::client::tables::IntentRowView {
                        package: Some(package),
                        attempt: None,
                        ..view.intents[room]
                    },
                )
        }),
{
    let room = crate::client::complete::reserving_room(view.intents, id, recipient)->Some_0;
    let kept = ClientChangeView::IntentPackage { room, package };
    let removed = ClientChangeView::OutboxRemoved { request_id: id };
    applied_two(view, kept, removed);
    assert(view.intents.contains_key(room));
}

/// A message is stored once: the same one again changes nothing, and another one
/// under its identifier is refused.
pub proof fn message_is_stored_once(
    view: ClientView,
    message: StoredRoomMessageView,
    other: StoredRoomMessageView,
)
    requires
        message_storing(view, message) matches Ok((new, _)) && new,
        other.message_id == message.message_id,
    ensures
        ({
            let changes = message_storing(view, message)->Ok_0.1;
            let after = client_all_applied(view, changes);
            &&& client_all_admitted(view, changes)
            &&& message_storing(after, other) == (if other.room_id == message.room_id
                && other.sequence == message.sequence && other.sender_id == message.sender_id
                && other.body == message.body {
                Ok::<(bool, Seq<ClientChangeView>), StoreError>((false, unchanged()))
            } else {
                Err(StoreError::InvalidData(StoreDefect::EnvelopeReused))
            })
        }),
{
    let changes = message_storing(view, message)->Ok_0.1;
    applied_one(view, changes[0]);
    assert(changes =~= seq![changes[0]]);
}

/// A receipt is owed, once, from when it is recorded until it is cleared.
pub proof fn receipt_is_owed_until_cleared(view: ClientView, id: MessageId, room: RoomId)
    requires
        client_in_order(view),
    ensures
        ({
            let recorded = client_all_applied(view, ack_changes(seq![(id, room)]));
            let again = client_all_applied(recorded, ack_changes(seq![(id, room)]));
            let cleared = client_all_applied(recorded, ack_clearings(seq![id]));
            &&& exists|i: int| 0 <= i < recorded.acks.len() && (#[trigger] recorded.acks[i]).0 == id
            &&& again.acks == recorded.acks
            &&& forall|i: int| 0 <= i < cleared.acks.len() ==> (#[trigger] cleared.acks[i]).0 != id
        }),
{
    let record = ClientChangeView::Ack { message_id: id, room };
    let clear = ClientChangeView::AckCleared { message_id: id };
    assert(ack_changes(seq![(id, room)]) =~= seq![record]);
    assert(ack_clearings(seq![id]) =~= seq![clear]);
    applied_one(view, record);
    let recorded = client_applied(view, record);
    applied_one(recorded, record);
    applied_one(recorded, clear);
    ack_index_is_first(view.acks, id);
    client_change_keeps_order(view, record);
    owed_once_kept(recorded.acks, id, room);
    ack_index_is_first(recorded.acks, id);
    if ack_index(view.acks, id) < view.acks.len() {
        assert(recorded.acks[ack_index(view.acks, id) as int].0 == id);
    } else {
        assert(recorded.acks[view.acks.len() as int].0 == id);
    }
}

/// A welcome that its inviter signed is verified by its recipient, once the relay
/// delivers it at the position that its commit took, and the recipient has the
/// inviter's card. The one exception is a signature whose first half is the neutral
/// point.
pub proof fn signed_welcome_is_verified(
    view: ClientView,
    secret: Seq<u8>,
    recipient: UserId,
    parent: u64,
    signature: Ed25519SignatureBytes,
    welcome: WelcomeDeliveryView,
)
    requires
        parent < MAX_POSITION,
        required_contact(view, welcome.inviter) is Ok,
        required_contact(view, welcome.inviter)->Ok_0.transport_key == public_key_of(secret),
        welcome.sequence == parent + 1,
        welcome_signed(
            secret,
            recipient,
            welcome.room,
            welcome.event,
            parent,
            welcome.attachment.body,
        ),
        welcome.attachment.signature == signature,
        signature@ == signature_by(
            secret,
            welcome_data(
                recipient,
                welcome.room,
                welcome.event,
                welcome.sequence,
                welcome.attachment.body,
            ),
        ),
        signature@.take(32) != neutral_point(),
    ensures
        welcome_verified(view, recipient, welcome) == Ok::<(), EngineError>(()),
{
}

} // verus!
