//! What a client keeps, and what it reads of it.
use vstd::prelude::*;
use crate::client::catchup::{waiting_is_indexed, waits};
use crate::client::contacts::{contacts_listed, parsed_card};
use crate::client::errors::{StoreDefect, StoreError};
use crate::client::laws::{
    ack_index_is_first, applied_nothing, applied_one, client_in_order, last_rowid_bounds,
    outbox_index_is_first,
};
use crate::client::pages::{history_page_is_the_newest, ordering_sorts, page_rows_bounds};
use crate::client::store::{
    ack_changes, ack_clearings, by_position, configured_budget, in_room, message_bytes,
    message_refreshing, message_storing, mls_identity_saving, outbox_saving, page_of_history,
    page_of_outbox, page_rows, plaintext_recording, room_upsert, rooms_in_order,
    welcome_ack_changes, welcome_ack_clearings, ClientStore,
};
use crate::client::metrics::{ClientMetric, ClientMetrics};
use crate::client::reception::{message_is_recorded, newest_is_last, newest_taken, recorded};
use crate::client::tables::{
    ack_index, client_admitted, client_all_applied, client_applied, removed_at, Arrival,
    ClientChangeView, ClientView, HistoryRowView, MessageRowView, OutboxRowView, RoomEntryView,
    WelcomeInboxRowView,
};
use crate::client::welcomes::{first_pending, welcome_blocking};
use crate::crypto::sha256;
use crate::delivery::StoredRoomMessageView;
use crate::ids::{MessageId, RoomId, UserId};
use crate::order::text_before;
use crate::protocol::normalized_name;
use crate::relay::settings::{text_is_read_as_it_writes, writes_number};
use crate::sequences::filter_members;
use crate::text::hex_text;

verus! {

/// The row that a message is kept as.
pub open spec fn row_of(message: StoredRoomMessageView) -> MessageRowView {
    MessageRowView {
        room: message.room_id,
        sequence: message.sequence,
        sender: message.sender_id,
        body: message.body,
    }
}

/// Whether another message stands at a message's position in its room.
pub open spec fn position_used(view: ClientView, message: StoredRoomMessageView) -> bool {
    message.sequence > 0 && exists|id: MessageId| #[trigger]
        view.messages.contains_key(id) && id != message.message_id && view.messages[id].room
            == message.room_id && view.messages[id].sequence == message.sequence
}

/// Keeping a message: one that is kept already, with everything the same, is not new and
/// changes nothing, with anything different it is refused; one whose position cannot be
/// stored or is another's is refused; any other is new and kept, and nothing else
/// changes.
pub proof fn keeping_a_message(view: ClientView, message: StoredRoomMessageView)
    ensures
        ({
            let known = view.messages.contains_key(message.message_id);
            let same = view.messages[message.message_id] == row_of(message);
            let storable = message.sequence <= 0x7fff_ffff_ffff_ffff;
            match message_storing(view, message) {
                Ok((new, changes)) => {
                    &&& new == !known
                    &&& known ==> same && client_all_applied(view, changes) == view
                    &&& !known ==> storable && !position_used(view, message) && client_all_applied(
                        view,
                        changes,
                    ) == (ClientView {
                        messages: view.messages.insert(message.message_id, row_of(message)),
                        ..view
                    })
                },
                Err(StoreError::InvalidData(StoreDefect::EnvelopeReused)) => known && !same,
                Err(StoreError::InvalidData(StoreDefect::SequenceRange)) => !known && !storable,
                Err(_) => !known && storable && position_used(view, message),
            }
        }),
{
    applied_nothing(view);
    applied_one(
        view,
        ClientChangeView::Message {
            message_id: message.message_id,
            room: message.room_id,
            sequence: message.sequence,
            sender: message.sender_id,
            body: message.body,
        },
    );
}

/// Renewing a message keeps it as it is now, known or not, unless its position cannot be
/// stored or is another's; nothing else changes.
pub proof fn renewing_a_message(view: ClientView, message: StoredRoomMessageView)
    ensures
        match message_refreshing(view, message) {
            Ok(changes) => {
                &&& message.sequence <= 0x7fff_ffff_ffff_ffff
                &&& !position_used(view, message)
                &&& client_all_applied(view, changes) == (ClientView {
                    messages: view.messages.insert(message.message_id, row_of(message)),
                    ..view
                })
            },
            Err(_) => message.sequence > 0x7fff_ffff_ffff_ffff || position_used(view, message),
        },
{
    applied_one(
        view,
        ClientChangeView::MessageRefreshed {
            message_id: message.message_id,
            room: message.room_id,
            sequence: message.sequence,
            sender: message.sender_id,
            body: message.body,
        },
    );
}

/// The budget for new data is what its text writes, or a gibibyte without one: from 128
/// kibibytes up to 64 mebibytes below the largest number that can be stored. There is
/// none exactly where the text writes no such number.
pub proof fn budget_is_what_its_text_sets(text: Option<Seq<char>>)
    ensures
        match configured_budget(text) {
            Ok(budget) => {
                &&& 131072 <= budget <= 0x7fff_ffff_ffff_ffff - 67108864
                &&& match text {
                    Some(text) => writes_number(text, budget as int),
                    None => budget == 1073741824,
                }
            },
            Err(_) => text matches Some(text) && forall|number: int| #[trigger]
                writes_number(text, number) ==> !(131072 <= number <= 0x7fff_ffff_ffff_ffff
                    - 67108864),
        },
{
    if let Some(text) = text {
        text_is_read_as_it_writes(text, u64::MAX as nat);
    }
}

/// The keys of the group identity are kept once: the same again change nothing, others are
/// refused.
pub proof fn group_keys_are_kept_once(view: ClientView, public_key: Seq<u8>, secret_key: Seq<u8>)
    ensures
        match mls_identity_saving(view, public_key, secret_key) {
            Ok(changes) => client_all_applied(view, changes) == (ClientView {
                mls_identity: Some((public_key, secret_key)),
                ..view
            }) && (view.mls_identity is Some ==> view.mls_identity == Some(
                (public_key, secret_key),
            )),
            Err(_) => view.mls_identity is Some && view.mls_identity != Some(
                (public_key, secret_key),
            ),
        },
{
    applied_nothing(view);
    applied_one(view, ClientChangeView::MlsIdentity { public_key, secret_key });
}

/// A room is listed under a name as it is kept, and from where it is known stays as it
/// first was; a name that is none is refused; no other room changes.
pub proof fn listing_a_room(view: ClientView, room: RoomId, name: Seq<char>, origin: Seq<char>)
    ensures
        match room_upsert(room, name, origin) {
            Ok(changes) => normalized_name(name) is Ok && client_all_applied(view, changes) == (
            ClientView {
                rooms: view.rooms.insert(
                    room,
                    RoomEntryView {
                        name: normalized_name(name)->Ok_0,
                        origin: if view.rooms.contains_key(room) {
                            view.rooms[room].origin
                        } else {
                            origin
                        },
                    },
                ),
                ..view
            }),
            Err(_) => normalized_name(name) is Err,
        },
{
    if let Ok(kept) = normalized_name(name) {
        applied_one(view, ClientChangeView::Room { room, name: kept, origin });
    }
}

/// Whether a message of the history is one of a room, and before a position where one is
/// given.
pub open spec fn asked_for(row: HistoryRowView, room: RoomId, before: Option<u64>) -> bool {
    row.room == room && (before matches Some(limit) ==> row.sequence < limit)
}

/// Reading the history of a room gives the last hundred messages before the given
/// position, or all of them where there are fewer, in the order of their positions.
pub proof fn reading_the_history(
    history: Seq<HistoryRowView>,
    room: RoomId,
    before: Option<u64>,
)
    ensures
        ({
            let page = page_of_history(history, room, before);
            let count = history.filter(
                |row: HistoryRowView| asked_for(row, room, before),
            ).len();
            &&& page.len() == if count < 100 {
                count
            } else {
                100
            }
            &&& forall|i: int|
                0 <= i < page.len() ==> asked_for(#[trigger] page[i], room, before)
                    && history.contains(page[i])
            &&& forall|i: int, j: int|
                0 <= i < j < page.len() ==> (#[trigger] page[i]).sequence <= (
                #[trigger] page[j]).sequence
            &&& forall|k: int, j: int|
                #![trigger history[k], page[j]]
                0 <= k < history.len() && asked_for(history[k], room, before) && !page.contains(
                    history[k],
                ) && 0 <= j < page.len() ==> history[k].sequence <= page[j].sequence
            &&& count <= 100 ==> forall|k: int|
                0 <= k < history.len() && asked_for(history[k], room, before) ==> page.contains(
                    #[trigger] history[k],
                )
        }),
{
    broadcast use vstd::seq_lib::group_to_multiset_ensures;

    let wanted = |row: HistoryRowView| asked_for(row, room, before);
    assert(wanted =~= in_room(room, before));
    let rows = history.filter(wanted);
    let all = by_position(rows);
    let page = page_of_history(history, room, before);
    ordering_sorts(rows);
    history_page_is_the_newest(history, room, before);
    filter_members(history, wanted);
    let gone = all.len() - page.len();
    assert(page =~= all.skip(gone));
    assert forall|k: int|
        0 <= k < history.len() && asked_for(history[k], room, before) implies all.contains(
        #[trigger] history[k],
    ) by {
        assert(wanted(history[k]));
        assert(rows.contains(history[k]));
        assert(rows.to_multiset().count(history[k]) > 0);
    }
    assert forall|k: int, j: int|
        #![trigger history[k], page[j]]
        0 <= k < history.len() && asked_for(history[k], room, before) && !page.contains(history[k])
            && 0 <= j < page.len() implies history[k].sequence <= page[j].sequence by {
        let a = all.index_of(history[k]);
        if a >= gone {
            assert(page[a - gone] == history[k]);
        }
        assert(all[a].sequence <= page[j].sequence);
    }
    assert forall|i: int| 0 <= i < page.len() implies asked_for(#[trigger] page[i], room, before)
        && history.contains(page[i]) by {
        assert(in_room(room, before)(page[i]));
    }
}

/// Reading the journal behind a number gives its first rows there, in order and none left
/// out: a hundred at most, and of messages of 768 kibibytes at most together, but one
/// where there is one; and as many as that allows.
pub proof fn reading_the_journal(view: ClientView, after: i64)
    ensures
        ({
            let rows = view.outbox.filter(|row: OutboxRowView| row.rowid > after);
            let page = page_of_outbox(view.outbox, after);
            &&& page == rows.take(page.len() as int)
            &&& page.len() <= rows.len()
            &&& page.len() <= 100
            &&& rows.len() > 0 ==> page.len() > 0
            &&& page.len() > 1 ==> bytes_in(page) <= 786432
            &&& page.len() < rows.len() ==> page.len() == 100 || bytes_in(
                rows.take(page.len() as int + 1),
            ) > 786432
        }),
{
    let wanted = |row: OutboxRowView| row.rowid > after;
    assert(wanted =~= crate::client::store::behind(after));
    let rows = view.outbox.filter(wanted);
    page_rows_bounds(rows, 0);
    page_is_full(rows, 0);
    let page = page_of_outbox(view.outbox, after);
    bytes_are_message_bytes(page);
    bytes_are_message_bytes(rows.take(page.len() as int + 1));
}

/// The bytes of the messages of some rows.
pub open spec fn bytes_in(rows: Seq<OutboxRowView>) -> int {
    rows.fold_left(0int, |sum: int, row: OutboxRowView| sum + row.message.len())
}

proof fn bytes_are_message_bytes(rows: Seq<OutboxRowView>)
    ensures
        message_bytes(rows) == bytes_in(rows),
    decreases rows.len(),
{
    if rows.len() > 0 {
        bytes_are_message_bytes(rows.drop_last());
    }
}

proof fn page_is_full(rows: Seq<OutboxRowView>, taken: nat)
    requires
        taken <= rows.len(),
        taken <= 100,
    ensures
        ({
            let length = page_rows(rows, taken);
            length < rows.len() ==> length >= 100 || message_bytes(rows.take(length as int + 1))
                > 786432
        }),
    decreases rows.len() - taken,
{
    if !(taken >= rows.len() || taken >= 100 || (taken > 0 && message_bytes(
        rows.take((taken + 1) as int),
    ) > 786432)) {
        page_is_full(rows, taken + 1);
    }
}

/// Whether a receipt is owed.
pub open spec fn owes(acks: Seq<(MessageId, RoomId)>, id: MessageId) -> bool {
    exists|i: int| 0 <= i < acks.len() && (#[trigger] acks[i]).0 == id
}

/// Whether an identifier is named in a list.
pub open spec fn names(ids: Seq<(MessageId, RoomId)>, id: MessageId) -> bool {
    exists|i: int| 0 <= i < ids.len() && (#[trigger] ids[i]).0 == id
}

proof fn ack_owed(acks: Seq<(MessageId, RoomId)>, id: MessageId)
    ensures
        (ack_index(acks, id) < acks.len()) == owes(acks, id),
{
    ack_index_is_first(acks, id);
}

proof fn one_ack_owed(view: ClientView, entry: (MessageId, RoomId), id: MessageId)
    ensures
        ({
            let acked = client_applied(
                view,
                ClientChangeView::Ack { message_id: entry.0, room: entry.1 },
            );
            let welcomed = client_applied(
                view,
                ClientChangeView::WelcomeAck { welcome_id: entry.0, room: entry.1 },
            );
            &&& owes(acked.acks, id) <==> owes(view.acks, id) || entry.0 == id
            &&& view.acks.is_prefix_of(acked.acks)
            &&& acked == (ClientView { acks: acked.acks, ..view })
            &&& owes(welcomed.welcome_acks, id) <==> owes(view.welcome_acks, id) || entry.0 == id
            &&& view.welcome_acks.is_prefix_of(welcomed.welcome_acks)
            &&& welcomed == (ClientView { welcome_acks: welcomed.welcome_acks, ..view })
        }),
{
    ack_owed(view.acks, entry.0);
    ack_owed(view.welcome_acks, entry.0);
    pushed_owed(view.acks, entry, id);
    pushed_owed(view.welcome_acks, entry, id);
}

proof fn pushed_owed(acks: Seq<(MessageId, RoomId)>, entry: (MessageId, RoomId), id: MessageId)
    ensures
        owes(acks.push(entry), id) <==> owes(acks, id) || entry.0 == id,
        acks.is_prefix_of(acks.push(entry)),
{
    let more = acks.push(entry);
    if owes(acks, id) {
        let i = choose|i: int| 0 <= i < acks.len() && (#[trigger] acks[i]).0 == id;
        assert(more[i].0 == id);
    }
    if entry.0 == id {
        assert(more[acks.len() as int].0 == id);
    }
    if owes(more, id) && entry.0 != id {
        let i = choose|i: int| 0 <= i < more.len() && (#[trigger] more[i]).0 == id;
        assert(acks[i].0 == id);
    }
}

/// Recording receipts that are owed: exactly the named ones are owed besides those that
/// were, which stand as they stood; nothing else changes.
pub proof fn owing_receipts(view: ClientView, ids: Seq<(MessageId, RoomId)>, id: MessageId)
    ensures
        ({
            let acked = client_all_applied(view, ack_changes(ids));
            let welcomed = client_all_applied(view, welcome_ack_changes(ids));
            &&& owes(acked.acks, id) <==> owes(view.acks, id) || names(ids, id)
            &&& view.acks.is_prefix_of(acked.acks)
            &&& acked == (ClientView { acks: acked.acks, ..view })
            &&& owes(welcomed.welcome_acks, id) <==> owes(view.welcome_acks, id) || names(ids, id)
            &&& view.welcome_acks.is_prefix_of(welcomed.welcome_acks)
            &&& welcomed == (ClientView { welcome_acks: welcomed.welcome_acks, ..view })
        }),
    decreases ids.len(),
{
    let acks = ack_changes(ids);
    let welcomes = welcome_ack_changes(ids);
    if ids.len() == 0 {
        assert(acks =~= Seq::<ClientChangeView>::empty());
        assert(welcomes =~= Seq::<ClientChangeView>::empty());
    } else {
        let fewer = ids.drop_last();
        owing_receipts(view, fewer, id);
        assert(acks.drop_last() =~= ack_changes(fewer));
        assert(welcomes.drop_last() =~= welcome_ack_changes(fewer));
        one_ack_owed(client_all_applied(view, ack_changes(fewer)), ids.last(), id);
        one_ack_owed(client_all_applied(view, welcome_ack_changes(fewer)), ids.last(), id);
        pushed_owed(fewer, ids.last(), id);
        assert(ids =~= fewer.push(ids.last()));
        assert(names(ids, id) <==> names(fewer, id) || ids.last().0 == id) by {
            assert(names(ids, id) == owes(ids, id));
            assert(names(fewer, id) == owes(fewer, id));
        }
    }
}

proof fn cleared_owed(
    acks: Seq<(MessageId, RoomId)>,
    gone: MessageId,
    id: MessageId,
)
    requires
        crate::client::laws::owed_once(acks),
    ensures
        ({
            let left = removed_at(acks, ack_index(acks, gone));
            &&& owes(left, id) <==> owes(acks, id) && id != gone
            &&& crate::client::laws::owed_once(left)
        }),
{
    ack_index_is_first(acks, gone);
    let at = ack_index(acks, gone) as int;
    let left = removed_at(acks, ack_index(acks, gone));
    if at < acks.len() {
        assert forall|i: int| 0 <= i < left.len() implies #[trigger] left[i] == acks[if i < at {
            i
        } else {
            i + 1
        }] by {}
        if owes(acks, id) && id != gone {
            let i = choose|i: int| 0 <= i < acks.len() && (#[trigger] acks[i]).0 == id;
            assert(left[if i < at {
                i
            } else {
                i - 1
            }].0 == id);
        }
        if owes(left, id) {
            let i = choose|i: int| 0 <= i < left.len() && (#[trigger] left[i]).0 == id;
            let k = if i < at {
                i
            } else {
                i + 1
            };
            assert(acks[k].0 == id);
            assert(k != at);
        }
    }
}

/// Clearing receipts: exactly the named ones are no longer owed; nothing else changes.
pub proof fn clearing_receipts(view: ClientView, ids: Seq<MessageId>, id: MessageId)
    requires
        client_in_order(view),
    ensures
        ({
            let acked = client_all_applied(view, ack_clearings(ids));
            let welcomed = client_all_applied(view, welcome_ack_clearings(ids));
            &&& owes(acked.acks, id) <==> owes(view.acks, id) && !ids.contains(id)
            &&& acked == (ClientView { acks: acked.acks, ..view })
            &&& owes(welcomed.welcome_acks, id) <==> owes(view.welcome_acks, id) && !ids.contains(
                id,
            )
            &&& welcomed == (ClientView { welcome_acks: welcomed.welcome_acks, ..view })
        }),
{
    clearing_keeps(view, ids, id);
}

proof fn clearing_keeps(view: ClientView, ids: Seq<MessageId>, id: MessageId)
    requires
        client_in_order(view),
    ensures
        ({
            let acked = client_all_applied(view, ack_clearings(ids));
            let welcomed = client_all_applied(view, welcome_ack_clearings(ids));
            &&& owes(acked.acks, id) <==> owes(view.acks, id) && !ids.contains(id)
            &&& acked == (ClientView { acks: acked.acks, ..view })
            &&& crate::client::laws::owed_once(acked.acks)
            &&& owes(welcomed.welcome_acks, id) <==> owes(view.welcome_acks, id) && !ids.contains(
                id,
            )
            &&& welcomed == (ClientView { welcome_acks: welcomed.welcome_acks, ..view })
            &&& crate::client::laws::owed_once(welcomed.welcome_acks)
        }),
    decreases ids.len(),
{
    let acks = ack_clearings(ids);
    let welcomes = welcome_ack_clearings(ids);
    if ids.len() == 0 {
        assert(acks =~= Seq::<ClientChangeView>::empty());
        assert(welcomes =~= Seq::<ClientChangeView>::empty());
    } else {
        let fewer = ids.drop_last();
        clearing_keeps(view, fewer, id);
        assert(acks.drop_last() =~= ack_clearings(fewer));
        assert(welcomes.drop_last() =~= welcome_ack_clearings(fewer));
        cleared_owed(client_all_applied(view, ack_clearings(fewer)).acks, ids.last(), id);
        cleared_owed(
            client_all_applied(view, welcome_ack_clearings(fewer)).welcome_acks,
            ids.last(),
            id,
        );
        assert(ids =~= fewer.push(ids.last()));
        assert(ids.contains(id) <==> fewer.contains(id) || ids.last() == id) by {
            if fewer.contains(id) {
                assert(ids[fewer.index_of(id)] == id);
            }
            if ids.last() == id {
                assert(ids[ids.len() - 1] == id);
            }
            if ids.contains(id) && ids.last() != id {
                let i = ids.index_of(id);
                assert(fewer[i] == id);
            }
        }
    }
}

/// What stands in the way of a change: an identity, a group identity or a contact that is
/// there already; a position or a cursor that cannot be stored; an event, a welcome, a
/// message, a wish or a request whose identifier, cursor or position is taken; and for a
/// request a number that is not behind all others. Nothing stands in the way of any
/// other change.
pub proof fn constraints(view: ClientView, change: ClientChangeView)
    ensures
        client_admitted(view, change) <==> match change {
            ClientChangeView::Identity { .. } => view.identity is None,
            ClientChangeView::MlsIdentity { .. } => view.mls_identity is None,
            ClientChangeView::Contact { user, .. } => !view.contacts.contains_key(user),
            ClientChangeView::Cursor { sequence, .. } => sequence <= 0x7fff_ffff_ffff_ffff,
            ClientChangeView::Inbox { id, room, sequence, .. } => {
                &&& sequence <= 0x7fff_ffff_ffff_ffff
                &&& forall|other: MessageId| #[trigger]
                    view.inbox.contains_key(other) ==> other != id && !(view.inbox[other].room
                        == room && view.inbox[other].sequence == sequence)
            },
            ClientChangeView::Welcome { cursor, .. } => cursor <= 0x7fff_ffff_ffff_ffff
                && !view.welcomes.contains_key(cursor),
            ClientChangeView::WelcomeCursor { cursor } => cursor <= 0x7fff_ffff_ffff_ffff,
            ClientChangeView::Intent { room, id, .. } => forall|other: RoomId| #[trigger]
                view.intents.contains_key(other) ==> other != room && view.intents[other].id != id,
            ClientChangeView::History { sequence, .. } => sequence <= 0x7fff_ffff_ffff_ffff,
            ClientChangeView::HistorySequence { sequence, .. } => sequence <= 0x7fff_ffff_ffff_ffff,
            ClientChangeView::Message { message_id, room, sequence, .. } => {
                &&& sequence <= 0x7fff_ffff_ffff_ffff
                &&& forall|other: MessageId| #[trigger]
                    view.messages.contains_key(other) ==> other != message_id && !(sequence > 0
                        && view.messages[other].room == room && view.messages[other].sequence
                        == sequence)
            },
            ClientChangeView::MessageRefreshed { message_id, room, sequence, .. } => {
                &&& sequence <= 0x7fff_ffff_ffff_ffff
                &&& forall|other: MessageId| #[trigger]
                    view.messages.contains_key(other) ==> other == message_id || !(sequence > 0
                        && view.messages[other].room == room && view.messages[other].sequence
                        == sequence)
            },
            ClientChangeView::Outbox { rowid, request_id, .. } => {
                &&& !waits(view.outbox, request_id)
                &&& rowid > 0
                &&& forall|i: int|
                    0 <= i < view.outbox.len() ==> (#[trigger] view.outbox[i]).rowid < rowid
            },
            _ => true,
        },
{
    if let ClientChangeView::Outbox { rowid, request_id, .. } = change {
        waiting_is_indexed(view.outbox, request_id);
        last_rowid_bounds(view.outbox);
        newest_taken(view.outbox);
    }
}

/// Whether a welcome is still to be dealt with: it was received, or blocked before.
pub open spec fn undecided(view: ClientView, cursor: u64) -> bool {
    view.welcomes.contains_key(cursor) && (view.welcomes[cursor].state == Arrival::Received
        || view.welcomes[cursor].state == Arrival::Blocked)
}

/// The next welcome to deal with is the one under the smallest cursor behind the last that
/// is still to be dealt with. Setting one aside marks it as blocked, and nothing else
/// changes.
pub proof fn choosing_a_welcome(view: ClientView, after: u64, cursor: u64)
    ensures
        first_pending(view.welcomes, after, cursor) <==> undecided(view, cursor) && cursor > after
            && forall|other: u64| #[trigger]
            view.welcomes.contains_key(other) && undecided(view, other) && other > after ==> cursor
                <= other,
        view.welcomes.contains_key(cursor) ==> client_all_applied(view, welcome_blocking(cursor))
            == (ClientView {
            welcomes: view.welcomes.insert(
                cursor,
                WelcomeInboxRowView { state: Arrival::Blocked, ..view.welcomes[cursor] },
            ),
            ..view
        }),
{
    applied_one(view, ClientChangeView::WelcomeState { cursor, state: Arrival::Blocked });
}

/// Saving a request of any kind: one that stands in the journal with the same kind and
/// message changes nothing, with another it is refused; a new one stands at the end,
/// with the next number, and nothing else changes.
pub proof fn saving_a_request(view: ClientView, id: MessageId, kind: Seq<char>, message: Seq<u8>)
    requires
        client_in_order(view),
    ensures
        match outbox_saving(view.outbox, id, kind, message) {
            Ok(changes) => {
                let after = client_all_applied(view, changes);
                if waits(view.outbox, id) {
                    &&& after == view
                    &&& forall|i: int|
                        0 <= i < view.outbox.len() && (#[trigger] view.outbox[i]).request_id == id
                            ==> view.outbox[i].kind == kind && view.outbox[i].message == message
                } else {
                    after == (ClientView {
                        outbox: view.outbox.push(
                            OutboxRowView {
                                rowid: (if view.outbox.len() == 0 {
                                    1
                                } else {
                                    view.outbox.last().rowid + 1
                                }) as i64,
                                request_id: id,
                                kind,
                                message,
                            },
                        ),
                        ..view
                    })
                }
            },
            Err(StoreError::InvalidData(_)) => exists|i: int|
                0 <= i < view.outbox.len() && (#[trigger] view.outbox[i]).request_id == id && (
                view.outbox[i].kind != kind || view.outbox[i].message != message),
            Err(_) => view.outbox.len() > 0 && view.outbox.last().rowid == i64::MAX,
        },
{
    waiting_is_indexed(view.outbox, id);
    outbox_index_is_first(view.outbox, id);
    newest_is_last(view.outbox);
    applied_nothing(view);
    if let Ok(changes) = outbox_saving(view.outbox, id, kind, message) {
        if changes.len() > 0 {
            assert(changes =~= seq![changes[0]]);
            applied_one(view, changes[0]);
        }
    }
}

/// Recording what was said puts it in the history under the message's identifier, with its
/// room, its position and its author, or renews the position of what stands there; unless
/// the position cannot be stored.
pub proof fn recording_plaintext(
    view: ClientView,
    message: StoredRoomMessageView,
    author: UserId,
    plaintext: Seq<u8>,
)
    requires
        client_in_order(view),
    ensures
        match plaintext_recording(message, author, plaintext) {
            Ok(changes) => {
                let after = client_all_applied(view, changes);
                &&& message.sequence <= 0x7fff_ffff_ffff_ffff
                &&& after == (ClientView { history: after.history, ..view })
                &&& recorded(
                    view.history,
                    after.history,
                    HistoryRowView {
                        message_id: message.message_id,
                        room: message.room_id,
                        sequence: message.sequence,
                        author,
                        plaintext,
                    },
                )
            },
            Err(_) => message.sequence > 0x7fff_ffff_ffff_ffff,
        },
{
    let row = HistoryRowView {
        message_id: message.message_id,
        room: message.room_id,
        sequence: message.sequence,
        author,
        plaintext,
    };
    message_is_recorded(view, row);
    applied_one(
        view,
        ClientChangeView::History {
            message_id: row.message_id,
            room: row.room,
            sequence: row.sequence,
            author: row.author,
            plaintext: row.plaintext,
        },
    );
}

/// A list of rooms that is in order holds every room once, under its name and from where it
/// is known, and no name comes before the one in front of it.
pub proof fn listing_rooms(view: ClientView, rooms: Seq<(RoomId, String, String)>)
    requires
        rooms_in_order(view, rooms),
    ensures
        forall|i: int, j: int|
            0 <= i < j < rooms.len() ==> (#[trigger] rooms[i]).0 != (#[trigger] rooms[j]).0
                && !text_before(rooms[j].1@, rooms[i].1@),
        forall|i: int|
            0 <= i < rooms.len() ==> view.rooms.contains_key((#[trigger] rooms[i]).0)
                && view.rooms[rooms[i].0].name == rooms[i].1@ && view.rooms[rooms[i].0].origin
                == rooms[i].2@,
        forall|room: RoomId| #[trigger]
            view.rooms.contains_key(room) ==> exists|i: int|
                0 <= i < rooms.len() && (#[trigger] rooms[i]).0 == room,
{
}

/// A list of contacts holds every contact once, in the order of the identifiers as texts,
/// each with the digest of the bytes of their card as it is read back, in hexadecimal.
pub proof fn listing_contacts(view: ClientView, contacts: Seq<(UserId, String)>)
    requires
        contacts_listed(view, contacts),
    ensures
        forall|i: int, j: int|
            0 <= i < j < contacts.len() ==> (#[trigger] contacts[i]).0 != (#[trigger] contacts[j]).0
                && !text_before(hex_text(contacts[j].0@), hex_text(contacts[i].0@)),
        forall|i: int|
            0 <= i < contacts.len() ==> view.contacts.contains_key((#[trigger] contacts[i]).0) && (
            parsed_card(hex_text(view.contacts[contacts[i].0].card)) matches Ok(card)
                && contacts[i].1@ == hex_text(
                sha256(
                    seq![1u8] + card.user@ + card.transport_key + card.mls_key + card.signature,
                ),
            )),
        forall|user: UserId| #[trigger]
            view.contacts.contains_key(user) ==> exists|i: int|
                0 <= i < contacts.len() && (#[trigger] contacts[i]).0 == user,
{
}

/// Counting an event moves its own counter on by one and no other.
pub proof fn counting_events(metrics: ClientMetrics, metric: ClientMetric)
    requires
        metrics.blocked_rooms < u64::MAX,
        metrics.commit_conflicts < u64::MAX,
        metrics.recovery_failures < u64::MAX,
    ensures
        metrics.after(metric).blocked_rooms == metrics.blocked_rooms + (if metric
            == ClientMetric::BlockedRoom {
            1int
        } else {
            0
        }),
        metrics.after(metric).commit_conflicts == metrics.commit_conflicts + (if metric
            == ClientMetric::CommitConflict {
            1int
        } else {
            0
        }),
        metrics.after(metric).recovery_failures == metrics.recovery_failures + (if metric
            == ClientMetric::RecoveryFailure {
            1int
        } else {
            0
        }),
{
}

/// A worker may use the store exactly where it is not closed for good and no other worker
/// has a transaction open.
pub proof fn using_the_store(store: ClientStore, worker: u64)
    ensures
        match store.barred(worker) {
            None => !store.is_poisoned() && (store.owner() is None || store.owner() == Some(
                worker,
            )),
            Some(StoreError::LockPoisoned) => store.is_poisoned(),
            Some(error) => {
                &&& error == StoreError::InvalidData(StoreDefect::ForeignTransaction)
                &&& !store.is_poisoned()
                &&& store.owner() matches Some(other) && other != worker
            },
        },
{
}

} // verus!
