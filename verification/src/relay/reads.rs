//! What each request that reads, and each receipt, is answered.
use vstd::prelude::*;
use crate::delivery::{
    Event, EventView, RoomHead, RoomHeadView, WelcomeDelivery, WelcomeDeliveryView, MAX_PAYLOAD,
    PAGE_SIZE,
};
use crate::ids::{MessageId, RoomId, UserId};
use crate::order::{room_number, room_order, room_order_injective};
use crate::protocol::{decode_message, decoded};
use crate::relay::state::RelayTables;
use crate::relay::tables::{
    room_head, room_known, Change, ChangeView, Defect, EventRowView, RelayView, StorageError,
    WelcomeRowView, MAX_NUMBER,
};
use crate::relay::writes::{first_room, is_execution, refusal, refuse, Execution};
use crate::requests::{Rejection, Response, ResponseView};
use crate::varint::{varint, varint_length};

verus! {

/// The most bytes of records on a page.
pub const PAGE_BYTES: usize = MAX_PAYLOAD - 96;

/// How many of the records fit on a page that holds `count` records of `bytes`
/// bytes already.
pub open spec fn page_length(sizes: Seq<nat>, count: nat, bytes: nat) -> nat
    decreases sizes.len(),
{
    if sizes.len() == 0 || count >= PAGE_SIZE || bytes + sizes[0] > PAGE_BYTES {
        0
    } else {
        1 + page_length(sizes.skip(1), count + 1, bytes + sizes[0])
    }
}

/// A page is no longer than what there is, and holds the records it counts.
pub proof fn page_length_bounds(sizes: Seq<nat>, count: nat, bytes: nat)
    requires
        count <= PAGE_SIZE,
        bytes <= PAGE_BYTES,
    ensures
        page_length(sizes, count, bytes) <= sizes.len(),
        count + page_length(sizes, count, bytes) <= PAGE_SIZE,
        bytes + sum(sizes.take(page_length(sizes, count, bytes) as int)) <= PAGE_BYTES,
    decreases sizes.len(),
{
    let length = page_length(sizes, count, bytes);
    if length == 0 {
        assert(sizes.take(0) =~= Seq::<nat>::empty());
    } else {
        page_length_bounds(sizes.skip(1), count + 1, bytes + sizes[0]);
        let page = sizes.take(length as int);
        assert(page.skip(1) =~= sizes.skip(1).take(length - 1));
        assert(page[0] == sizes[0]);
    }
}

/// The sum of some sizes.
pub open spec fn sum(sizes: Seq<nat>) -> nat
    decreases sizes.len(),
{
    if sizes.len() == 0 {
        0
    } else {
        sizes[0] + sum(sizes.skip(1))
    }
}

/// The events of a room behind a position, in the order of the table.
pub open spec fn events_behind(events: Seq<EventRowView>, room: RoomId, after: u64) -> Seq<
    EventRowView,
> {
    events.filter(|row: EventRowView| row.room == room && row.sequence > after)
}

/// The sizes of event records.
pub open spec fn event_sizes(rows: Seq<EventRowView>) -> Seq<nat> {
    Seq::new(rows.len(), |i: int| rows[i].record.len())
}

/// The events that rows hold, where all can be read.
pub open spec fn events_read(rows: Seq<EventRowView>) -> Option<Seq<EventView>> {
    if forall|i: int| 0 <= i < rows.len() ==> decoded::<Event>((#[trigger] rows[i]).record) is Ok {
        Some(Seq::new(rows.len(), |i: int| decoded::<Event>(rows[i].record)->Ok_0))
    } else {
        None
    }
}

/// Reading a room: a page of its events behind a position, for those who receive
/// them.
pub open spec fn room_page(view: RelayView, user: UserId, room: RoomId, after: u64) -> Execution {
    let behind = events_behind(view.events, room, after);
    let length = page_length(event_sizes(behind), 0, 0);
    if after > MAX_NUMBER {
        refusal(Rejection::Invalid)
    } else if !view.subscribers.contains((room, user)) {
        refusal(Rejection::Unauthorized)
    } else {
        match events_read(behind.take(length as int)) {
            None => Err(StorageError::InvalidStoredData(Defect::DeliveryRecord)),
            Some(events) => Ok(
                (
                    ResponseView::RoomEvents {
                        room,
                        after_sequence: after,
                        events,
                        more: length < behind.len(),
                    },
                    Seq::empty(),
                ),
            ),
        }
    }
}

/// The welcomes of a recipient behind a cursor, in the order of the table.
pub open spec fn welcomes_behind(welcomes: Seq<WelcomeRowView>, user: UserId, after: u64) -> Seq<
    WelcomeRowView,
> {
    welcomes.filter(|row: WelcomeRowView| row.recipient == user && row.cursor > after)
}

/// What a welcome takes under its cursor; its record is written without one.
pub open spec fn sent_size(row: WelcomeRowView) -> nat {
    (row.record.len() - 1 + varint(row.cursor as nat).len()) as nat
}

/// What the welcomes of an answer may take: all but what stands around them.
pub open spec fn welcome_room(after: u64) -> nat {
    (MAX_PAYLOAD - 20 - varint(after as nat).len()) as nat
}

/// How many of the welcomes fit on a page that holds `count` of them already, whose
/// records take `bytes` bytes and which take `sent` of `room` bytes in the answer.
pub open spec fn welcome_page_length(
    rows: Seq<WelcomeRowView>,
    room: nat,
    count: nat,
    bytes: nat,
    sent: nat,
) -> nat
    decreases rows.len(),
{
    if rows.len() == 0 || count >= PAGE_SIZE || bytes + rows[0].record.len() > PAGE_BYTES || sent
        + sent_size(rows[0]) > room {
        0
    } else {
        1 + welcome_page_length(
            rows.skip(1),
            room,
            count + 1,
            bytes + rows[0].record.len(),
            sent + sent_size(rows[0]),
        )
    }
}

/// The bytes that welcomes take under their cursors.
pub open spec fn sent_sizes(rows: Seq<WelcomeRowView>) -> Seq<nat> {
    Seq::new(rows.len(), |i: int| sent_size(rows[i]))
}

/// A page of welcomes is no longer than what there is, and fits its answer.
pub proof fn welcome_page_bounds(
    rows: Seq<WelcomeRowView>,
    room: nat,
    count: nat,
    bytes: nat,
    sent: nat,
)
    requires
        count <= PAGE_SIZE,
        sent <= room,
    ensures
        welcome_page_length(rows, room, count, bytes, sent) <= rows.len(),
        count + welcome_page_length(rows, room, count, bytes, sent) <= PAGE_SIZE,
        sent + sum(
            sent_sizes(rows.take(welcome_page_length(rows, room, count, bytes, sent) as int)),
        ) <= room,
    decreases rows.len(),
{
    let length = welcome_page_length(rows, room, count, bytes, sent);
    let page = rows.take(length as int);
    if length == 0 {
        assert(sent_sizes(page) =~= Seq::<nat>::empty());
    } else {
        welcome_page_bounds(
            rows.skip(1),
            room,
            count + 1,
            bytes + rows[0].record.len(),
            sent + sent_size(rows[0]),
        );
        assert(page.skip(1) =~= rows.skip(1).take(length - 1));
        assert(sent_sizes(page).skip(1) =~= sent_sizes(page.skip(1)));
        assert(sent_sizes(page)[0] == sent_size(rows[0]));
    }
}

/// The welcome that a row holds, under the row's cursor.
pub open spec fn welcome_read(row: WelcomeRowView) -> WelcomeDeliveryView {
    WelcomeDeliveryView { cursor: row.cursor, ..decoded::<WelcomeDelivery>(row.record)->Ok_0 }
}

/// The welcomes that rows hold, where all can be read.
pub open spec fn welcomes_read(rows: Seq<WelcomeRowView>) -> Option<Seq<WelcomeDeliveryView>> {
    if forall|i: int|
        0 <= i < rows.len() ==> decoded::<WelcomeDelivery>((#[trigger] rows[i]).record) is Ok {
        Some(Seq::new(rows.len(), |i: int| welcome_read(rows[i])))
    } else {
        None
    }
}

/// Reading invitations: a page of the own ones behind a cursor.
pub open spec fn welcome_page(view: RelayView, user: UserId, after: u64) -> Execution {
    let behind = welcomes_behind(view.welcomes, user, after);
    let length = welcome_page_length(behind, welcome_room(after), 0, 0, 0);
    if after > MAX_NUMBER {
        refusal(Rejection::Invalid)
    } else {
        match welcomes_read(behind.take(length as int)) {
            None => Err(StorageError::InvalidStoredData(Defect::DeliveryRecord)),
            Some(welcomes) => Ok(
                (
                    ResponseView::Welcomes {
                        after_cursor: after,
                        welcomes,
                        more: length < behind.len(),
                    },
                    Seq::empty(),
                ),
            ),
        }
    }
}

/// Whether a room is on a user's list behind another.
pub open spec fn listed(view: RelayView, user: UserId, after: Option<RoomId>, room: RoomId) -> bool {
    &&& room_known(view.rooms, room)
    &&& view.subscribers.contains((room, user))
    &&& after matches Some(last) ==> room_order(last) < room_order(room)
}

/// Whether a room is the next on a user's list.
pub open spec fn next_listed(
    view: RelayView,
    user: UserId,
    after: Option<RoomId>,
    room: RoomId,
) -> bool {
    listed(view, user, after, room) && forall|other: RoomId| #[trigger]
        listed(view, user, after, other) ==> room_order(room) <= room_order(other)
}

/// The next rooms on a user's list, at most `count`.
pub open spec fn rooms_behind(
    view: RelayView,
    user: UserId,
    after: Option<RoomId>,
    count: nat,
) -> Seq<RoomId>
    decreases count,
{
    if count == 0 || !exists|room: RoomId| next_listed(view, user, after, room) {
        Seq::empty()
    } else {
        let room = choose|room: RoomId| next_listed(view, user, after, room);
        seq![room] + rooms_behind(view, user, Some(room), (count - 1) as nat)
    }
}

/// The entry of a room on a list.
pub open spec fn room_entry(view: RelayView, room: RoomId) -> RoomHeadView {
    RoomHeadView {
        room,
        name: view.rooms[first_room(view.rooms, room) as int].name,
        sequence: room_head(view.events, room),
    }
}

/// The entries of rooms.
pub open spec fn room_entries(view: RelayView, rooms: Seq<RoomId>) -> Seq<RoomHeadView> {
    Seq::new(rooms.len(), |i: int| room_entry(view, rooms[i]))
}

/// Listing rooms: a page of those whose events the user receives, in order.
pub open spec fn index_page(view: RelayView, user: UserId, after: Option<RoomId>) -> Execution {
    let rooms = rooms_behind(view, user, after, (PAGE_SIZE + 1) as nat);
    Ok(
        (
            ResponseView::SyncIndex {
                rooms: room_entries(
                    view,
                    if rooms.len() > PAGE_SIZE {
                        rooms.take(PAGE_SIZE as int)
                    } else {
                        rooms
                    },
                ),
                more: rooms.len() > PAGE_SIZE,
            },
            Seq::empty(),
        ),
    )
}

/// Whether a user receives an event.
pub open spec fn event_received(view: RelayView, user: UserId, event: MessageId) -> bool {
    exists|i: int|
        0 <= i < view.events.len() && (#[trigger] view.events[i]).id == event
            && view.subscribers.contains((view.events[i].room, user))
}

/// Whether a welcome waits for a user under a cursor.
pub open spec fn welcome_received(view: RelayView, user: UserId, cursor: u64) -> bool {
    exists|i: int|
        0 <= i < view.welcomes.len() && (#[trigger] view.welcomes[i]).cursor == cursor
            && view.welcomes[i].recipient == user
}

/// Confirming welcomes one after the other.
pub open spec fn welcomes_confirmed(view: RelayView, user: UserId, welcomes: Seq<u64>) -> Execution
    decreases welcomes.len(),
{
    if welcomes.len() == 0 {
        Ok((ResponseView::Acknowledged, Seq::empty()))
    } else if welcomes[0] > MAX_NUMBER {
        Err(StorageError::Database)
    } else if !welcome_received(view, user, welcomes[0]) {
        refusal(Rejection::Unauthorized)
    } else {
        welcomes_confirmed(view, user, welcomes.skip(1))
    }
}

/// A receipt: only of what the user receives. Receipts advise and change nothing
/// that is read.
pub open spec fn receipt(
    view: RelayView,
    user: UserId,
    events: Seq<MessageId>,
    welcomes: Seq<u64>,
) -> Execution {
    if events.len() + welcomes.len() > PAGE_SIZE {
        refusal(Rejection::Invalid)
    } else if exists|i: int|
        0 <= i < events.len() && !event_received(view, user, #[trigger] events[i]) {
        refusal(Rejection::Unauthorized)
    } else {
        welcomes_confirmed(view, user, welcomes)
    }
}

fn no_changes() -> (changes: Vec<Change>)
    ensures
        changes.deep_view() == Seq::<ChangeView>::empty(),
{
    let changes: Vec<Change> = Vec::new();
    assert(changes.deep_view() =~= Seq::<ChangeView>::empty());
    changes
}

impl RelayTables {
    fn find_events(&self, room: RoomId, after: u64) -> (found: Vec<usize>)
        ensures
            events_behind(self@.events, room, after) == Seq::new(
                found@.len(),
                |i: int| self@.events[found@[i] as int],
            ),
            forall|i: int| 0 <= i < found@.len() ==> (#[trigger] found@[i]) < self.events@.len(),
    {
        let mut found: Vec<usize> = Vec::new();
        let mut at: usize = 0;
        let ghost wanted = |row: EventRowView| row.room == room && row.sequence > after;
        proof {
            assert(self@.events.take(0) =~= Seq::<EventRowView>::empty());
            reveal(Seq::filter);
            assert(self@.events.take(0).filter(wanted) =~= Seq::<EventRowView>::empty());
        }
        while at < self.events.len()
            invariant
                at <= self.events@.len(),
                wanted == (|row: EventRowView| row.room == room && row.sequence > after),
                self@.events.take(at as int).filter(wanted) == Seq::new(
                    found@.len(),
                    |i: int| self@.events[found@[i] as int],
                ),
                forall|i: int| 0 <= i < found@.len() ==> (#[trigger] found@[i]) < self.events@.len(),
            decreases self.events.len() - at,
        {
            let ghost before = found@;
            proof {
                reveal(Seq::filter);
                assert(self@.events.take(at + 1).drop_last() =~= self@.events.take(at as int));
                assert(self@.events.take(at + 1).last() == self@.events[at as int]);
            }
            if self.events[at].room.same(&room) && self.events[at].sequence > after {
                found.push(at);
                assert(self@.events.take(at + 1).filter(wanted) =~= Seq::new(
                    found@.len(),
                    |i: int| self@.events[found@[i] as int],
                ));
            }
            at += 1;
        }
        assert(self@.events.take(at as int) =~= self@.events);
        found
    }

    /// A page of a room's events.
    #[verifier::rlimit(60)]
    #[verifier::spinoff_prover]
    pub fn fetch_events(&self, user: UserId, room: RoomId, after: u64) -> (result: Result<
        (Response, Vec<Change>),
        StorageError,
    >)
        ensures
            is_execution(result, room_page(self@, user, room, after)),
    {
        if after > MAX_NUMBER {
            return refuse(Rejection::Invalid);
        }
        if !self.subscribers.contains(&(room, user)) {
            return refuse(Rejection::Unauthorized);
        }
        let found = self.find_events(room, after);
        let ghost behind = events_behind(self@.events, room, after);
        let ghost sizes = event_sizes(behind);
        let ghost length = page_length(sizes, 0, 0);
        let mut events: Vec<Event> = Vec::new();
        let mut bytes: usize = 0;
        let mut at: usize = 0;
        let mut more = false;
        proof {
            page_length_bounds(sizes, 0, 0);
            assert(sizes.skip(0) =~= sizes);
        }
        while at < found.len()
            invariant_except_break
                !more,
            invariant
                at <= found@.len(),
                at <= PAGE_SIZE,
                bytes <= PAGE_BYTES,
                behind == Seq::new(found@.len(), |i: int| self@.events[found@[i] as int]),
                forall|i: int| 0 <= i < found@.len() ==> (#[trigger] found@[i]) < self.events@.len(),
                sizes == event_sizes(behind),
                length == page_length(sizes, 0, 0),
                length == at + page_length(sizes.skip(at as int), at as nat, bytes as nat),
                length <= behind.len(),
                events@.len() == at,
                forall|i: int|
                    0 <= i < at ==> decoded::<Event>((#[trigger] behind[i]).record) == Ok::<
                        EventView,
                        crate::protocol::DecodeMessageError,
                    >(events@[i].deep_view()),
                after <= MAX_NUMBER,
                self@.subscribers.contains((room, user)),
                behind == events_behind(self@.events, room, after),
            ensures
                at == length,
                more == (length < behind.len()),
            decreases found.len() - at,
        {
            let row = &self.events[found[at]];
            let size = row.record.len();
            assert(behind[at as int] == self@.events[found@[at as int] as int]);
            assert(sizes.skip(at as int)[0] == size);
            if at == PAGE_SIZE || size > PAGE_BYTES - bytes {
                more = true;
                break;
            }
            let ghost tail = sizes.skip(at as int);
            assert(tail.skip(1) =~= sizes.skip(at + 1));
            match decode_message::<Event>(row.record.as_slice()) {
                Ok(event) => {
                    events.push(event);
                },
                Err(_) => {
                    proof {
                        let page = behind.take(length as int);
                        assert(page[at as int] == behind[at as int]);
                        assert(events_read(page) is None);
                    }
                    return Err(StorageError::InvalidStoredData(Defect::DeliveryRecord));
                },
            }
            bytes += size;
            at += 1;
        }
        proof {
            let page = behind.take(length as int);
            assert forall|i: int| 0 <= i < page.len() implies decoded::<Event>(
                (#[trigger] page[i]).record,
            ) == Ok::<EventView, crate::protocol::DecodeMessageError>(events@[i].deep_view()) by {
                assert(page[i] == behind[i]);
            }
            assert(events_read(page) is Some);
            assert(events.deep_view() =~= events_read(page)->Some_0);
        }
        Ok((Response::RoomEvents { room, after_sequence: after, events, more }, no_changes()))
    }

    fn find_welcomes(&self, user: UserId, after: u64) -> (found: Vec<usize>)
        ensures
            welcomes_behind(self@.welcomes, user, after) == Seq::new(
                found@.len(),
                |i: int| self@.welcomes[found@[i] as int],
            ),
            forall|i: int| 0 <= i < found@.len() ==> (#[trigger] found@[i]) < self.welcomes@.len(),
    {
        let mut found: Vec<usize> = Vec::new();
        let mut at: usize = 0;
        let ghost wanted = |row: WelcomeRowView| row.recipient == user && row.cursor > after;
        proof {
            assert(self@.welcomes.take(0) =~= Seq::<WelcomeRowView>::empty());
            reveal(Seq::filter);
            assert(self@.welcomes.take(0).filter(wanted) =~= Seq::<WelcomeRowView>::empty());
        }
        while at < self.welcomes.len()
            invariant
                at <= self.welcomes@.len(),
                wanted == (|row: WelcomeRowView| row.recipient == user && row.cursor > after),
                self@.welcomes.take(at as int).filter(wanted) == Seq::new(
                    found@.len(),
                    |i: int| self@.welcomes[found@[i] as int],
                ),
                forall|i: int|
                    0 <= i < found@.len() ==> (#[trigger] found@[i]) < self.welcomes@.len(),
            decreases self.welcomes.len() - at,
        {
            proof {
                reveal(Seq::filter);
                assert(self@.welcomes.take(at + 1).drop_last() =~= self@.welcomes.take(at as int));
                assert(self@.welcomes.take(at + 1).last() == self@.welcomes[at as int]);
            }
            if self.welcomes[at].recipient.same(&user) && self.welcomes[at].cursor > after {
                found.push(at);
                assert(self@.welcomes.take(at + 1).filter(wanted) =~= Seq::new(
                    found@.len(),
                    |i: int| self@.welcomes[found@[i] as int],
                ));
            }
            at += 1;
        }
        assert(self@.welcomes.take(at as int) =~= self@.welcomes);
        found
    }

    /// A page of the user's invitations.
    #[verifier::rlimit(60)]
    #[verifier::spinoff_prover]
    pub fn fetch_welcomes(&self, user: UserId, after: u64) -> (result: Result<
        (Response, Vec<Change>),
        StorageError,
    >)
        ensures
            is_execution(result, welcome_page(self@, user, after)),
    {
        if after > MAX_NUMBER {
            return refuse(Rejection::Invalid);
        }
        let found = self.find_welcomes(user, after);
        let ghost behind = welcomes_behind(self@.welcomes, user, after);
        proof {
            crate::sizes::u64_size(after);
        }
        let room: usize = MAX_PAYLOAD - 20 - varint_length(after);
        let ghost length = welcome_page_length(behind, room as nat, 0, 0, 0);
        let mut welcomes: Vec<WelcomeDelivery> = Vec::new();
        let mut bytes: usize = 0;
        let mut sent: usize = 0;
        let mut at: usize = 0;
        let mut more = false;
        proof {
            welcome_page_bounds(behind, room as nat, 0, 0, 0);
            assert(behind.skip(0) =~= behind);
        }
        while at < found.len()
            invariant_except_break
                !more,
            invariant
                at <= found@.len(),
                at <= PAGE_SIZE,
                bytes <= PAGE_BYTES,
                sent <= room <= MAX_PAYLOAD,
                room == welcome_room(after),
                behind == Seq::new(found@.len(), |i: int| self@.welcomes[found@[i] as int]),
                forall|i: int|
                    0 <= i < found@.len() ==> (#[trigger] found@[i]) < self.welcomes@.len(),
                length == welcome_page_length(behind, room as nat, 0, 0, 0),
                length == at + welcome_page_length(
                    behind.skip(at as int),
                    room as nat,
                    at as nat,
                    bytes as nat,
                    sent as nat,
                ),
                length <= behind.len(),
                welcomes@.len() == at,
                forall|i: int|
                    0 <= i < at ==> decoded::<WelcomeDelivery>((#[trigger] behind[i]).record) is Ok
                        && welcomes@[i].deep_view() == welcome_read(behind[i]),
                after <= MAX_NUMBER,
                behind == welcomes_behind(self@.welcomes, user, after),
            ensures
                at == length,
                more == (length < behind.len()),
            decreases found.len() - at,
        {
            let row = &self.welcomes[found[at]];
            let size = row.record.len();
            proof {
                assert(behind[at as int] == self@.welcomes[found@[at as int] as int]);
                assert(behind.skip(at as int)[0] == behind[at as int]);
                crate::sizes::u64_size(row.cursor);
            }
            let cursor_size = varint_length(row.cursor);
            if at == PAGE_SIZE || size > PAGE_BYTES - bytes || size + (cursor_size - 1) > room - sent {
                more = true;
                break;
            }
            assert(behind.skip(at as int).skip(1) =~= behind.skip(at + 1));
            match decode_message::<WelcomeDelivery>(row.record.as_slice()) {
                Ok(mut welcome) => {
                    welcome.cursor = row.cursor;
                    welcomes.push(welcome);
                },
                Err(_) => {
                    proof {
                        let page = behind.take(length as int);
                        assert(page[at as int] == behind[at as int]);
                        assert(welcomes_read(page) is None);
                    }
                    return Err(StorageError::InvalidStoredData(Defect::DeliveryRecord));
                },
            }
            bytes += size;
            sent += size + (cursor_size - 1);
            at += 1;
        }
        proof {
            let page = behind.take(length as int);
            assert forall|i: int| 0 <= i < page.len() implies decoded::<WelcomeDelivery>(
                (#[trigger] page[i]).record,
            ) is Ok && welcomes@[i].deep_view() == welcome_read(page[i]) by {
                assert(page[i] == behind[i]);
            }
            assert(welcomes_read(page) is Some);
            assert(welcomes.deep_view() =~= welcomes_read(page)->Some_0);
        }
        Ok((Response::Welcomes { after_cursor: after, welcomes, more }, no_changes()))
    }

    fn next_room(&self, user: UserId, after: Option<RoomId>) -> (next: Option<RoomId>)
        ensures
            match next {
                Some(room) => next_listed(self@, user, after, room) && room == choose|room: RoomId|
                    next_listed(self@, user, after, room),
                None => !exists|room: RoomId| next_listed(self@, user, after, room),
            },
    {
        let mut best: Option<RoomId> = None;
        let mut at: usize = 0;
        while at < self.rooms.len()
            invariant
                at <= self.rooms@.len(),
                best matches Some(room) ==> listed(self@, user, after, room),
                forall|i: int|
                    0 <= i < at && listed(self@, user, after, (#[trigger] self@.rooms[i]).room) ==> (
                    best matches Some(room) && room_order(room) <= room_order(self@.rooms[i].room)),
            decreases self.rooms.len() - at,
        {
            let room = self.rooms[at].room;
            assert(self@.rooms[at as int].room == room);
            let behind = match after {
                Some(last) => room_number(&last) < room_number(&room),
                None => true,
            };
            let better = match best {
                Some(other) => room_number(&room) < room_number(&other),
                None => true,
            };
            if behind && better && self.subscribers.contains(&(room, user)) {
                best = Some(room);
            }
            at += 1;
        }
        proof {
            match best {
                Some(room) => {
                    assert forall|other: RoomId| #[trigger]
                        listed(self@, user, after, other) implies room_order(room) <= room_order(
                        other,
                    ) by {
                        let i = choose|i: int|
                            0 <= i < self@.rooms.len() && (#[trigger] self@.rooms[i]).room == other;
                        assert(listed(self@, user, after, self@.rooms[i].room));
                    }
                    assert(next_listed(self@, user, after, room));
                    let chosen = choose|room: RoomId| next_listed(self@, user, after, room);
                    room_order_injective(chosen, room);
                },
                None => {
                    assert forall|room: RoomId| !next_listed(self@, user, after, room) by {
                        if listed(self@, user, after, room) {
                            let i = choose|i: int|
                                0 <= i < self@.rooms.len() && (#[trigger] self@.rooms[i]).room
                                    == room;
                            assert(listed(self@, user, after, self@.rooms[i].room));
                        }
                    }
                },
            }
        }
        best
    }

    /// A page of the user's rooms.
    pub fn sync_index(&self, user: UserId, after: Option<RoomId>) -> (result: Result<
        (Response, Vec<Change>),
        StorageError,
    >)
        ensures
            is_execution(result, index_page(self@, user, after)),
    {
        let ghost all = rooms_behind(self@, user, after, (PAGE_SIZE + 1) as nat);
        let mut rooms: Vec<RoomHead> = Vec::new();
        let mut last = after;
        let mut more = false;
        let ghost mut seen: Seq<RoomId> = Seq::empty();
        assert(all =~= seen + rooms_behind(self@, user, last, (PAGE_SIZE + 1) as nat));
        loop
            invariant_except_break
                !more,
                rooms@.len() <= PAGE_SIZE,
                seen.len() == rooms@.len(),
                all == seen + rooms_behind(
                    self@,
                    user,
                    last,
                    (PAGE_SIZE + 1 - rooms@.len()) as nat,
                ),
            invariant
                forall|i: int|
                    0 <= i < rooms@.len() ==> (#[trigger] rooms@[i]).deep_view() == room_entry(
                        self@,
                        seen[i],
                    ),
            ensures
                seen.len() == rooms@.len() <= PAGE_SIZE,
                more == (all.len() > PAGE_SIZE),
                seen == if all.len() > PAGE_SIZE {
                    all.take(PAGE_SIZE as int)
                } else {
                    all
                },
            decreases PAGE_SIZE + 1 - rooms@.len(),
        {
            let room = match self.next_room(user, last) {
                Some(room) => room,
                None => {
                    assert(all =~= seen);
                    break;
                },
            };
            if rooms.len() == PAGE_SIZE {
                proof {
                    assert(all.len() > PAGE_SIZE);
                    assert(all.take(PAGE_SIZE as int) =~= seen);
                    reveal_with_fuel(rooms_behind, 2);
                }
                more = true;
                break;
            }
            let index = self.entry_index(room);
            let ghost tail = rooms_behind(
                self@,
                user,
                Some(room),
                (PAGE_SIZE - rooms@.len()) as nat,
            );
            rooms.push(
                RoomHead {
                    room,
                    name: self.rooms[index].name.clone(),
                    sequence: self.head(room),
                },
            );
            last = Some(room);
            proof {
                assert(all =~= seen.push(room) + tail);
                seen = seen.push(room);
            }
        }
        assert(rooms.deep_view() =~= room_entries(self@, seen));
        Ok((Response::SyncIndex { rooms, more }, no_changes()))
    }

    fn entry_index(&self, room: RoomId) -> (index: usize)
        requires
            room_known(self@.rooms, room),
        ensures
            index < self@.rooms.len(),
            index == first_room(self@.rooms, room),
    {
        let mut at: usize = 0;
        assert(self@.rooms.skip(0) =~= self@.rooms);
        while at < self.rooms.len()
            invariant
                at <= self.rooms@.len(),
                room_known(self@.rooms, room),
                first_room(self@.rooms, room) == at + first_room(self@.rooms.skip(at as int), room),
                forall|i: int| 0 <= i < at ==> (#[trigger] self@.rooms[i]).room != room,
            decreases self.rooms.len() - at,
        {
            if self.rooms[at].room.same(&room) {
                return at;
            }
            assert(self@.rooms.skip(at as int).skip(1) =~= self@.rooms.skip(at + 1));
            at += 1;
        }
        0
    }

    fn receives_event(&self, user: UserId, event: MessageId) -> (yes: bool)
        ensures
            yes == event_received(self@, user, event),
    {
        let mut at: usize = 0;
        while at < self.events.len()
            invariant
                at <= self.events@.len(),
                forall|i: int|
                    0 <= i < at && (#[trigger] self@.events[i]).id == event
                        ==> !self@.subscribers.contains((self@.events[i].room, user)),
            decreases self.events.len() - at,
        {
            assert(self@.events[at as int] == self.events@[at as int].deep_view());
            if self.events[at].id.same(&event) && self.subscribers.contains(
                &(self.events[at].room, user),
            ) {
                return true;
            }
            at += 1;
        }
        false
    }

    fn receives_welcome(&self, user: UserId, cursor: u64) -> (yes: bool)
        ensures
            yes == welcome_received(self@, user, cursor),
    {
        let mut at: usize = 0;
        while at < self.welcomes.len()
            invariant
                at <= self.welcomes@.len(),
                forall|i: int|
                    0 <= i < at && (#[trigger] self@.welcomes[i]).cursor == cursor
                        ==> self@.welcomes[i].recipient != user,
            decreases self.welcomes.len() - at,
        {
            assert(self@.welcomes[at as int] == self.welcomes@[at as int].deep_view());
            if self.welcomes[at].cursor == cursor && self.welcomes[at].recipient.same(&user) {
                return true;
            }
            at += 1;
        }
        false
    }

    /// Takes a receipt.
    pub fn acknowledge(&self, user: UserId, events: &Vec<MessageId>, welcomes: &Vec<u64>) -> (result: Result<
        (Response, Vec<Change>),
        StorageError,
    >)
        ensures
            is_execution(result, receipt(self@, user, events@, welcomes@)),
    {
        if events.len() > PAGE_SIZE || welcomes.len() > PAGE_SIZE - events.len() {
            return refuse(Rejection::Invalid);
        }
        let mut at: usize = 0;
        while at < events.len()
            invariant
                at <= events@.len(),
                events@.len() + welcomes@.len() <= PAGE_SIZE,
                forall|i: int| 0 <= i < at ==> event_received(self@, user, #[trigger] events@[i]),
            decreases events.len() - at,
        {
            if !self.receives_event(user, events[at]) {
                assert(!event_received(self@, user, events@[at as int]));
                return refuse(Rejection::Unauthorized);
            }
            at += 1;
        }
        let mut index: usize = 0;
        assert(welcomes@.skip(0) =~= welcomes@);
        while index < welcomes.len()
            invariant
                index <= welcomes@.len(),
                receipt(self@, user, events@, welcomes@) == welcomes_confirmed(
                    self@,
                    user,
                    welcomes@.skip(index as int),
                ),
            decreases welcomes.len() - index,
        {
            assert(welcomes@.skip(index as int).skip(1) =~= welcomes@.skip(index + 1));
            if welcomes[index] > MAX_NUMBER {
                return Err(StorageError::Database);
            }
            if !self.receives_welcome(user, welcomes[index]) {
                return refuse(Rejection::Unauthorized);
            }
            index += 1;
        }
        Ok((Response::Acknowledged, no_changes()))
    }
}

} // verus!
