//! How a client catches up: welcomes first, then every room from where it stands.
use vstd::prelude::*;
use crate::client::errors::StoreError;
use crate::client::journal::{
    attempt_unresolved, receiving, room_cursor, Engine, EngineError, Refusal,
};
use crate::client::store::{joined, one_change, room_upsert, within_budget, DatabaseSize};
use crate::client::tables::{ClientChange, ClientChangeView, ClientView, MAX_POSITION};
use crate::delivery::{
    Event, EventView, RoomHead, RoomHeadView, WelcomeDelivery, WelcomeDeliveryView, MAX_PAYLOAD,
};
use crate::ids::{RoomId, UserId};
use crate::order::{room_number, room_order};
use crate::protocol::encode_message;
use crate::requests::{Rejection, Request, RequestView, Response, ResponseView};
use crate::varint::WireError;
use crate::wire::Wire;

verus! {

/// A page of the room index, and how far it has been worked through.
#[derive(Debug)]
pub struct RoomList {
    /// The last room whose head was taken.
    pub after: Option<RoomId>,
    pub heads: Vec<RoomHead>,
    /// The head that is worked on.
    pub at: usize,
    /// Whether the index goes on.
    pub more: bool,
}

/// What a [`RoomList`] holds.
#[verifier::ext_equal]
pub struct RoomListView {
    pub after: Option<RoomId>,
    pub heads: Seq<RoomHeadView>,
    pub at: nat,
    pub more: bool,
}

impl DeepView for RoomList {
    type V = RoomListView;

    open spec fn deep_view(&self) -> RoomListView {
        RoomListView {
            after: self.after,
            heads: self.heads.deep_view(),
            at: self.at as nat,
            more: self.more,
        }
    }
}

/// A page of events of the room that is worked on.
#[derive(Debug)]
pub struct EventList {
    pub rooms: RoomList,
    /// The position that the page starts behind.
    pub cursor: u64,
    pub events: Vec<Event>,
    /// The event that is worked on.
    pub at: usize,
}

/// What an [`EventList`] holds.
#[verifier::ext_equal]
pub struct EventListView {
    pub rooms: RoomListView,
    pub cursor: u64,
    pub events: Seq<EventView>,
    pub at: nat,
}

impl DeepView for EventList {
    type V = EventListView;

    open spec fn deep_view(&self) -> EventListView {
        EventListView {
            rooms: self.rooms.deep_view(),
            cursor: self.cursor,
            events: self.events.deep_view(),
            at: self.at as nat,
        }
    }
}

/// How far the client has caught up.
#[derive(Debug)]
pub enum SyncState {
    Idle,
    /// Welcomes behind a cursor were asked for.
    Welcomes { cursor: u64 },
    /// A page of welcomes is written.
    WelcomesWritten { more: bool },
    /// The welcomes are joined.
    Joining,
    /// Rooms behind a room were asked for.
    Index { after: Option<RoomId> },
    /// A head is written.
    HeadWritten(RoomList),
    /// The group of a room is looked up.
    Finding(RoomList),
    /// Events of a room were asked for.
    Events { rooms: RoomList, cursor: u64 },
    /// An event is written.
    EventWritten(EventList),
    /// An event is processed.
    Applying(EventList),
    Done,
}

/// What a [`SyncState`] holds.
#[verifier::ext_equal]
#[allow(inconsistent_fields)]
pub enum SyncStateView {
    Idle,
    Welcomes { cursor: u64 },
    WelcomesWritten { more: bool },
    Joining,
    Index { after: Option<RoomId> },
    HeadWritten(RoomListView),
    Finding(RoomListView),
    Events { rooms: RoomListView, cursor: u64 },
    EventWritten(EventListView),
    Applying(EventListView),
    Done,
}

impl DeepView for SyncState {
    type V = SyncStateView;

    open spec fn deep_view(&self) -> SyncStateView {
        match self {
            SyncState::Idle => SyncStateView::Idle,
            SyncState::Welcomes { cursor } => SyncStateView::Welcomes { cursor: *cursor },
            SyncState::WelcomesWritten { more } => SyncStateView::WelcomesWritten { more: *more },
            SyncState::Joining => SyncStateView::Joining,
            SyncState::Index { after } => SyncStateView::Index { after: *after },
            SyncState::HeadWritten(rooms) => SyncStateView::HeadWritten(rooms.deep_view()),
            SyncState::Finding(rooms) => SyncStateView::Finding(rooms.deep_view()),
            SyncState::Events { rooms, cursor } => SyncStateView::Events {
                rooms: rooms.deep_view(),
                cursor: *cursor,
            },
            SyncState::EventWritten(events) => SyncStateView::EventWritten(events.deep_view()),
            SyncState::Applying(events) => SyncStateView::Applying(events.deep_view()),
            SyncState::Done => SyncStateView::Done,
        }
    }
}

/// What happened.
#[derive(Debug)]
pub enum SyncEvent {
    Start,
    Answer(Response),
    /// What was to be written is written.
    Written,
    /// The welcomes are joined, as far as they could be.
    Joined,
    /// Whether the group is there.
    Group(bool),
    /// Whether the room goes on behind the event.
    Applied(bool),
}

/// What a [`SyncEvent`] holds.
#[verifier::ext_equal]
pub enum SyncEventView {
    Start,
    Answer(ResponseView),
    Written,
    Joined,
    Group(bool),
    Applied(bool),
}

impl DeepView for SyncEvent {
    type V = SyncEventView;

    open spec fn deep_view(&self) -> SyncEventView {
        match self {
            SyncEvent::Start => SyncEventView::Start,
            SyncEvent::Answer(response) => SyncEventView::Answer(response.deep_view()),
            SyncEvent::Written => SyncEventView::Written,
            SyncEvent::Joined => SyncEventView::Joined,
            SyncEvent::Group(found) => SyncEventView::Group(*found),
            SyncEvent::Applied(goes_on) => SyncEventView::Applied(*goes_on),
        }
    }
}

/// What to do next.
#[derive(Debug)]
pub enum SyncAction {
    Ask(Request),
    Write(Vec<ClientChange>),
    /// Join the welcomes that wait.
    Join,
    /// See whether the group of a room is there.
    FindGroup(RoomId),
    /// Process an event.
    Apply(Event),
    Finish,
}

/// What a [`SyncAction`] holds.
#[verifier::ext_equal]
pub enum SyncActionView {
    Ask(RequestView),
    Write(Seq<ClientChangeView>),
    Join,
    FindGroup(RoomId),
    Apply(EventView),
    Finish,
}

impl DeepView for SyncAction {
    type V = SyncActionView;

    open spec fn deep_view(&self) -> SyncActionView {
        match self {
            SyncAction::Ask(request) => SyncActionView::Ask(request.deep_view()),
            SyncAction::Write(changes) => SyncActionView::Write(changes.deep_view()),
            SyncAction::Join => SyncActionView::Join,
            SyncAction::FindGroup(room) => SyncActionView::FindGroup(*room),
            SyncAction::Apply(event) => SyncActionView::Apply(event.deep_view()),
            SyncAction::Finish => SyncActionView::Finish,
        }
    }
}

/// A step: where the client stands then, and what it does.
pub type SyncStep = Result<(SyncStateView, SyncActionView), EngineError>;

/// The bytes that a page of welcomes needs.
pub open spec fn welcome_bytes(welcomes: Seq<WelcomeDeliveryView>) -> nat
    decreases welcomes.len(),
{
    if welcomes.len() == 0 {
        0
    } else {
        let total = welcome_bytes(welcomes.drop_last()) + welcomes.last().attachment.body.len() + 1024;
        if total > usize::MAX {
            usize::MAX as nat
        } else {
            total
        }
    }
}

/// What is written for a page of welcomes behind a cursor.
pub open spec fn welcome_rows(
    view: ClientView,
    user: UserId,
    last: u64,
    welcomes: Seq<WelcomeDeliveryView>,
) -> Result<Seq<ClientChangeView>, EngineError>
    decreases welcomes.len(),
{
    if welcomes.len() == 0 {
        Ok(Seq::empty())
    } else {
        let welcome = welcomes[0];
        let record = WelcomeDelivery::encoded(welcome);
        if welcome.cursor <= last || welcome.attachment.recipient != user {
            Err(EngineError::Refused(Refusal::WelcomeMismatch))
        } else if record.len() > MAX_PAYLOAD {
            Err(EngineError::Encode(WireError::BufferFull))
        } else if welcome.cursor > MAX_POSITION || view.welcomes.contains_key(welcome.cursor) {
            Err(EngineError::Store(StoreError::Database))
        } else {
            match welcome_rows(view, user, welcome.cursor, welcomes.skip(1)) {
                Err(error) => Err(error),
                Ok(rest) => Ok(
                    seq![ClientChangeView::Welcome { cursor: welcome.cursor, record }] + rest,
                ),
            }
        }
    }
}

/// What is written for a page of welcomes: the welcomes and the new cursor.
pub open spec fn welcome_page_rows(
    view: ClientView,
    budget: u64,
    user: UserId,
    cursor: u64,
    welcomes: Seq<WelcomeDeliveryView>,
    size: DatabaseSize,
) -> Result<Seq<ClientChangeView>, EngineError> {
    if !within_budget(size, welcome_bytes(welcomes), budget) {
        Err(EngineError::Store(StoreError::Quota))
    } else {
        match welcome_rows(view, user, cursor, welcomes) {
            Err(error) => Err(error),
            Ok(rows) => Ok(
                rows + seq![ClientChangeView::WelcomeCursor { cursor: welcomes.last().cursor }],
            ),
        }
    }
}

/// The room after the one that is worked on.
pub open spec fn following(rooms: RoomListView) -> RoomListView {
    RoomListView { at: rooms.at + 1, ..rooms }
}

/// The step to the head that is worked on, or on from the page.
pub open spec fn head_step(view: ClientView, rooms: RoomListView) -> SyncStep {
    if rooms.at >= rooms.heads.len() {
        if rooms.more {
            Ok(
                (
                    SyncStateView::Index { after: rooms.after },
                    SyncActionView::Ask(RequestView::SyncIndex { after_room: rooms.after }),
                ),
            )
        } else {
            Ok((SyncStateView::Done, SyncActionView::Finish))
        }
    } else {
        let head = rooms.heads[rooms.at as int];
        if rooms.after matches Some(last) && room_order(last) >= room_order(head.room) {
            Err(EngineError::Refused(Refusal::IndexOrder))
        } else if head.sequence > MAX_POSITION || head.sequence < room_cursor(view, head.room) {
            Err(EngineError::Refused(Refusal::HeadRegression))
        } else {
            match room_upsert(head.room, head.name, "subscribed"@) {
                Err(error) => Err(EngineError::Store(error)),
                Ok(changes) => Ok(
                    (
                        SyncStateView::HeadWritten(
                            RoomListView { after: Some(head.room), ..rooms },
                        ),
                        SyncActionView::Write(changes),
                    ),
                ),
            }
        }
    }
}

/// The step to more events of the room that is worked on, or to the next room.
pub open spec fn fetch_step(view: ClientView, rooms: RoomListView) -> SyncStep {
    let head = rooms.heads[rooms.at as int];
    let cursor = room_cursor(view, head.room);
    if cursor < head.sequence {
        Ok(
            (
                SyncStateView::Events { rooms, cursor },
                SyncActionView::Ask(
                    RequestView::FetchRoomEvents { room: head.room, after_sequence: cursor },
                ),
            ),
        )
    } else {
        head_step(view, following(rooms))
    }
}

/// The step to the event that is worked on: it must extend the one before it.
pub open spec fn event_step(
    view: ClientView,
    budget: u64,
    page: EventListView,
    size: DatabaseSize,
) -> SyncStep {
    let event = page.events[page.at as int];
    if event.operation.room != page.rooms.heads[page.rooms.at as int].room
        || event.operation.parent != page.cursor + page.at {
        Err(EngineError::Refused(Refusal::NoncontiguousPage))
    } else {
        match receiving(view, budget, event, size) {
            Err(error) => Err(error),
            Ok(changes) => Ok((SyncStateView::EventWritten(page), SyncActionView::Write(changes))),
        }
    }
}

/// The step on an answer with welcomes.
pub open spec fn welcomes_step(
    view: ClientView,
    budget: u64,
    user: UserId,
    cursor: u64,
    response: ResponseView,
    size: DatabaseSize,
) -> SyncStep {
    match response {
        ResponseView::Welcomes { after_cursor, welcomes, more } => if after_cursor != cursor || (
        more && welcomes.len() == 0) {
            Err(EngineError::Refused(Refusal::WelcomePage))
        } else if welcomes.len() == 0 {
            Ok((SyncStateView::Joining, SyncActionView::Join))
        } else {
            match welcome_page_rows(view, budget, user, cursor, welcomes, size) {
                Err(error) => Err(error),
                Ok(changes) => Ok(
                    (SyncStateView::WelcomesWritten { more }, SyncActionView::Write(changes)),
                ),
            }
        },
        _ => Err(EngineError::Refused(Refusal::WelcomeResponse)),
    }
}

/// The step on an answer with rooms.
pub open spec fn index_step(view: ClientView, after: Option<RoomId>, response: ResponseView) -> SyncStep {
    match response {
        ResponseView::SyncIndex { rooms, more } => if more && rooms.len() == 0 {
            Err(EngineError::Refused(Refusal::EmptyIndex))
        } else {
            head_step(view, RoomListView { after, heads: rooms, at: 0, more })
        },
        _ => Err(EngineError::Refused(Refusal::IndexResponse)),
    }
}

/// The step on an answer with events.
pub open spec fn events_step(
    view: ClientView,
    budget: u64,
    rooms: RoomListView,
    cursor: u64,
    response: ResponseView,
    size: DatabaseSize,
) -> SyncStep {
    match response {
        ResponseView::RoomEvents { room, after_sequence, events, .. } => if room
            != rooms.heads[rooms.at as int].room || after_sequence != cursor || events.len() == 0 {
            Err(EngineError::Refused(Refusal::OmittedSequence))
        } else {
            event_step(view, budget, EventListView { rooms, cursor, events, at: 0 }, size)
        },
        _ => Err(EngineError::Refused(Refusal::EventsResponse)),
    }
}

/// The step that asks for welcomes.
pub open spec fn welcome_question(view: ClientView) -> SyncStep {
    Ok(
        (
            SyncStateView::Welcomes { cursor: view.welcome_cursor },
            SyncActionView::Ask(RequestView::FetchWelcomes { after_cursor: view.welcome_cursor }),
        ),
    )
}

/// Whether the lists of a state stand on something.
pub open spec fn state_in_range(state: SyncStateView) -> bool {
    match state {
        SyncStateView::HeadWritten(rooms) => rooms.at < rooms.heads.len(),
        SyncStateView::Finding(rooms) => rooms.at < rooms.heads.len(),
        SyncStateView::Events { rooms, .. } => rooms.at < rooms.heads.len(),
        SyncStateView::EventWritten(page) => page.at < page.events.len() && page.rooms.at
            < page.rooms.heads.len(),
        SyncStateView::Applying(page) => page.at < page.events.len() && page.rooms.at
            < page.rooms.heads.len(),
        _ => true,
    }
}

/// What happens next.
pub open spec fn sync_step(
    view: ClientView,
    budget: u64,
    user: UserId,
    state: SyncStateView,
    event: SyncEventView,
    size: DatabaseSize,
) -> SyncStep {
    match (state, event) {
        (SyncStateView::Idle, SyncEventView::Start) => welcome_question(view),
        (SyncStateView::Welcomes { cursor }, SyncEventView::Answer(response)) => welcomes_step(
            view,
            budget,
            user,
            cursor,
            response,
            size,
        ),
        (SyncStateView::WelcomesWritten { more }, SyncEventView::Written) => if more {
            welcome_question(view)
        } else {
            Ok((SyncStateView::Joining, SyncActionView::Join))
        },
        (SyncStateView::Joining, SyncEventView::Joined) => Ok(
            (
                SyncStateView::Index { after: None },
                SyncActionView::Ask(RequestView::SyncIndex { after_room: None }),
            ),
        ),
        (SyncStateView::Index { after }, SyncEventView::Answer(response)) => index_step(
            view,
            after,
            response,
        ),
        (SyncStateView::HeadWritten(rooms), SyncEventView::Written) => {
            let room = rooms.heads[rooms.at as int].room;
            if attempt_unresolved(view, room) {
                head_step(view, following(rooms))
            } else {
                Ok((SyncStateView::Finding(rooms), SyncActionView::FindGroup(room)))
            }
        },
        (SyncStateView::Finding(rooms), SyncEventView::Group(found)) => if found {
            fetch_step(view, rooms)
        } else {
            head_step(view, following(rooms))
        },
        (SyncStateView::Events { rooms, cursor }, SyncEventView::Answer(response)) => events_step(
            view,
            budget,
            rooms,
            cursor,
            response,
            size,
        ),
        (SyncStateView::EventWritten(page), SyncEventView::Written) => if page.at + 1
            < page.events.len() {
            event_step(view, budget, EventListView { at: page.at + 1, ..page }, size)
        } else {
            Ok(
                (
                    SyncStateView::Applying(EventListView { at: 0, ..page }),
                    SyncActionView::Apply(page.events[0]),
                ),
            )
        },
        (SyncStateView::Applying(page), SyncEventView::Applied(goes_on)) => if !goes_on {
            head_step(view, following(page.rooms))
        } else if page.at + 1 < page.events.len() {
            Ok(
                (
                    SyncStateView::Applying(EventListView { at: page.at + 1, ..page }),
                    SyncActionView::Apply(page.events[page.at as int + 1]),
                ),
            )
        } else {
            fetch_step(view, page.rooms)
        },
        _ => Err(EngineError::Refused(Refusal::UnexpectedResponse)),
    }
}

/// Whether a result is the step that is meant.
pub open spec fn steps(
    result: Result<(SyncState, SyncAction), EngineError>,
    meant: SyncStep,
) -> bool {
    match meant {
        Ok((state, action)) => result matches Ok((next, act)) && next.deep_view() == state
            && act.deep_view() == action,
        Err(error) => result matches Err(got) && got == error,
    }
}

/// Whether the relay could not serve a read now, so that it is asked again.
pub fn asks_again(response: &Response) -> (again: bool)
    ensures
        again == (response.deep_view() == ResponseView::Rejected(Rejection::Overloaded)
            || response.deep_view() == ResponseView::Rejected(Rejection::Internal)),
{
    match response {
        Response::Rejected(reason) => *reason == Rejection::Overloaded || *reason
            == Rejection::Internal,
        _ => false,
    }
}

fn refused(refusal: Refusal) -> (result: Result<(SyncState, SyncAction), EngineError>)
    ensures
        steps(result, Err(EngineError::Refused(refusal))),
{
    Err(EngineError::Refused(refusal))
}

impl Engine {
    fn welcome_total(&self, welcomes: &Vec<WelcomeDelivery>) -> (total: usize)
        ensures
            total == welcome_bytes(welcomes.deep_view()),
    {
        let ghost all = welcomes.deep_view();
        let mut total: usize = 0;
        let mut at: usize = 0;
        assert(all.take(0) =~= Seq::<WelcomeDeliveryView>::empty());
        while at < welcomes.len()
            invariant
                at <= welcomes@.len(),
                all == welcomes.deep_view(),
                total == welcome_bytes(all.take(at as int)),
            decreases welcomes.len() - at,
        {
            assert(all.take(at + 1).drop_last() =~= all.take(at as int));
            assert(all.take(at + 1).last() == welcomes@[at as int].deep_view());
            total = total.saturating_add(welcomes[at].attachment.body.len()).saturating_add(1024);
            at += 1;
        }
        assert(all.take(at as int) =~= all);
        total
    }

    fn welcome_changes(&self, cursor: u64, welcomes: &Vec<WelcomeDelivery>) -> (result: Result<
        Vec<ClientChange>,
        EngineError,
    >)
        ensures
            crate::client::journal::plans(
                result,
                welcome_rows(self.store@, self.user, cursor, welcomes.deep_view()),
            ),
    {
        let ghost all = welcomes.deep_view();
        let mut changes: Vec<ClientChange> = Vec::new();
        let mut last: u64 = cursor;
        let mut at: usize = 0;
        assert(all.skip(0) =~= all);
        assert(changes.deep_view() =~= Seq::<ClientChangeView>::empty());
        assert(rows_behind(
            changes.deep_view(),
            welcome_rows(self.store@, self.user, cursor, all),
        ) == welcome_rows(self.store@, self.user, cursor, all)) by {
            match welcome_rows(self.store@, self.user, cursor, all) {
                Ok(rows) => {
                    assert(changes.deep_view() + rows =~= rows);
                },
                Err(_) => {},
            }
        }
        while at < welcomes.len()
            invariant
                at <= welcomes@.len(),
                all == welcomes.deep_view(),
                welcome_rows(self.store@, self.user, cursor, all) == rows_behind(
                    changes.deep_view(),
                    welcome_rows(self.store@, self.user, last, all.skip(at as int)),
                ),
            decreases welcomes.len() - at,
        {
            let welcome = &welcomes[at];
            let ghost before = changes.deep_view();
            proof {
                assert(all.skip(at as int)[0] == welcome.deep_view());
                assert(all.skip(at as int).skip(1) =~= all.skip(at + 1));
            }
            if welcome.cursor <= last || !welcome.attachment.recipient.same(&self.user) {
                return Err(EngineError::Refused(Refusal::WelcomeMismatch));
            }
            let record = match encode_message(welcome) {
                Ok(record) => record,
                Err(error) => return Err(EngineError::Encode(error)),
            };
            if welcome.cursor > MAX_POSITION || self.store.tables.welcomes.contains(
                &welcome.cursor,
            ) {
                return Err(EngineError::Store(StoreError::Database));
            }
            last = welcome.cursor;
            let ghost row = ClientChangeView::Welcome { cursor: last, record: record@ };
            changes.push(ClientChange::Welcome { cursor: last, record });
            proof {
                assert(changes.deep_view() =~= before.push(row));
                match welcome_rows(self.store@, self.user, last, all.skip(at + 1)) {
                    Ok(rest) => {
                        assert(before + (seq![row] + rest) =~= before.push(row) + rest);
                    },
                    Err(_) => {},
                }
            }
            at += 1;
        }
        assert(all.skip(at as int) =~= Seq::<WelcomeDeliveryView>::empty());
        assert(changes.deep_view() + Seq::<ClientChangeView>::empty() =~= changes.deep_view());
        Ok(changes)
    }

    fn take_welcomes(&self, cursor: u64, welcomes: &Vec<WelcomeDelivery>, size: DatabaseSize) -> (result:
        Result<Vec<ClientChange>, EngineError>)
        requires
            welcomes@.len() > 0,
        ensures
            crate::client::journal::plans(
                result,
                welcome_page_rows(
                    self.store@,
                    self.store.budget(),
                    self.user,
                    cursor,
                    welcomes.deep_view(),
                    size,
                ),
            ),
    {
        match self.store.admit_new_data(self.welcome_total(welcomes), size) {
            Ok(()) => {},
            Err(error) => return Err(EngineError::Store(error)),
        }
        let rows = match self.welcome_changes(cursor, welcomes) {
            Ok(rows) => rows,
            Err(error) => return Err(error),
        };
        let last = welcomes[welcomes.len() - 1].cursor;
        assert(last == welcomes.deep_view().last().cursor);
        Ok(joined(rows, one_change(ClientChange::WelcomeCursor { cursor: last })))
    }

    fn step_welcomes(&self, cursor: u64, response: Response, size: DatabaseSize) -> (result: Result<
        (SyncState, SyncAction),
        EngineError,
    >)
        ensures
            steps(
                result,
                welcomes_step(
                    self.store@,
                    self.store.budget(),
                    self.user,
                    cursor,
                    response.deep_view(),
                    size,
                ),
            ),
    {
        match response {
            Response::Welcomes { after_cursor, welcomes, more } => {
                if after_cursor != cursor || (more && welcomes.len() == 0) {
                    return refused(Refusal::WelcomePage);
                }
                if welcomes.len() == 0 {
                    return Ok((SyncState::Joining, SyncAction::Join));
                }
                match self.take_welcomes(cursor, &welcomes, size) {
                    Ok(changes) => Ok(
                        (SyncState::WelcomesWritten { more }, SyncAction::Write(changes)),
                    ),
                    Err(error) => Err(error),
                }
            },
            _ => refused(Refusal::WelcomeResponse),
        }
    }

    fn step_head(&self, rooms: RoomList) -> (result: Result<(SyncState, SyncAction), EngineError>)
        ensures
            steps(result, head_step(self.store@, rooms.deep_view())),
    {
        if rooms.at >= rooms.heads.len() {
            if rooms.more {
                let after = rooms.after;
                return Ok(
                    (
                        SyncState::Index { after },
                        SyncAction::Ask(Request::SyncIndex { after_room: after }),
                    ),
                );
            }
            return Ok((SyncState::Done, SyncAction::Finish));
        }
        let head = &rooms.heads[rooms.at];
        assert(head.deep_view() == rooms.deep_view().heads[rooms.at as int]);
        if let Some(last) = rooms.after {
            if room_number(&last) >= room_number(&head.room) {
                return refused(Refusal::IndexOrder);
            }
        }
        if head.sequence > MAX_POSITION || head.sequence < self.cursor(head.room) {
            return refused(Refusal::HeadRegression);
        }
        let changes = match self.store.upsert_room(head.room, head.name.as_str(), "subscribed") {
            Ok(changes) => changes,
            Err(error) => return Err(EngineError::Store(error)),
        };
        let after = Some(head.room);
        Ok(
            (
                SyncState::HeadWritten(
                    RoomList { after, heads: rooms.heads, at: rooms.at, more: rooms.more },
                ),
                SyncAction::Write(changes),
            ),
        )
    }

    fn step_following(&self, rooms: RoomList) -> (result: Result<
        (SyncState, SyncAction),
        EngineError,
    >)
        requires
            rooms.at < rooms.heads@.len(),
        ensures
            steps(result, head_step(self.store@, following(rooms.deep_view()))),
    {
        let count = rooms.heads.len();
        assert(rooms.at < count);
        self.step_head(
            RoomList { after: rooms.after, heads: rooms.heads, at: rooms.at + 1, more: rooms.more },
        )
    }

    fn step_fetch(&self, rooms: RoomList) -> (result: Result<(SyncState, SyncAction), EngineError>)
        requires
            rooms.at < rooms.heads@.len(),
        ensures
            steps(result, fetch_step(self.store@, rooms.deep_view())),
    {
        let room = rooms.heads[rooms.at].room;
        let target = rooms.heads[rooms.at].sequence;
        assert(
            rooms.heads@[rooms.at as int].deep_view() == rooms.deep_view().heads[rooms.at as int]
        );
        let cursor = self.cursor(room);
        if cursor < target {
            return Ok(
                (
                    SyncState::Events { rooms, cursor },
                    SyncAction::Ask(Request::FetchRoomEvents { room, after_sequence: cursor }),
                ),
            );
        }
        self.step_following(rooms)
    }

    fn step_event(&self, page: EventList, size: DatabaseSize) -> (result: Result<
        (SyncState, SyncAction),
        EngineError,
    >)
        requires
            page.at < page.events@.len(),
            page.rooms.at < page.rooms.heads@.len(),
        ensures
            steps(
                result,
                event_step(self.store@, self.store.budget(), page.deep_view(), size),
            ),
    {
        let event = &page.events[page.at];
        assert(event.deep_view() == page.deep_view().events[page.at as int]);
        let room = page.rooms.heads[page.rooms.at].room;
        assert(room == page.deep_view().rooms.heads[page.rooms.at as int].room);
        let expected = page.cursor.checked_add(page.at as u64);
        let contiguous = match expected {
            Some(parent) => event.operation.room.same(&room) && event.operation.parent == parent,
            None => false,
        };
        if !contiguous {
            return refused(Refusal::NoncontiguousPage);
        }
        match self.receive(event, size) {
            Ok(changes) => Ok((SyncState::EventWritten(page), SyncAction::Write(changes))),
            Err(error) => Err(error),
        }
    }

    fn step_index(&self, after: Option<RoomId>, response: Response) -> (result: Result<
        (SyncState, SyncAction),
        EngineError,
    >)
        ensures
            steps(result, index_step(self.store@, after, response.deep_view())),
    {
        match response {
            Response::SyncIndex { rooms, more } => {
                if more && rooms.len() == 0 {
                    return refused(Refusal::EmptyIndex);
                }
                self.step_head(RoomList { after, heads: rooms, at: 0, more })
            },
            _ => refused(Refusal::IndexResponse),
        }
    }

    fn step_events(&self, rooms: RoomList, cursor: u64, response: Response, size: DatabaseSize) -> (result:
        Result<(SyncState, SyncAction), EngineError>)
        requires
            rooms.at < rooms.heads@.len(),
        ensures
            steps(
                result,
                events_step(
                    self.store@,
                    self.store.budget(),
                    rooms.deep_view(),
                    cursor,
                    response.deep_view(),
                    size,
                ),
            ),
    {
        match response {
            Response::RoomEvents { room, after_sequence, events, .. } => {
                let expected = rooms.heads[rooms.at].room;
                assert(expected == rooms.deep_view().heads[rooms.at as int].room);
                if !room.same(&expected) || after_sequence != cursor || events.len() == 0 {
                    return refused(Refusal::OmittedSequence);
                }
                self.step_event(EventList { rooms, cursor, events, at: 0 }, size)
            },
            _ => refused(Refusal::EventsResponse),
        }
    }

    fn step_written(&self, page: EventList, size: DatabaseSize) -> (result: Result<
        (SyncState, SyncAction),
        EngineError,
    >)
        requires
            page.at < page.events@.len(),
            page.rooms.at < page.rooms.heads@.len(),
        ensures
            steps(
                result,
                sync_step(
                    self.store@,
                    self.store.budget(),
                    self.user,
                    SyncStateView::EventWritten(page.deep_view()),
                    SyncEventView::Written,
                    size,
                ),
            ),
    {
        let count = page.events.len();
        if page.at + 1 < count {
            return self.step_event(
                EventList {
                    rooms: page.rooms,
                    cursor: page.cursor,
                    events: page.events,
                    at: page.at + 1,
                },
                size,
            );
        }
        let first = page.events[0].clone();
        assert(page.events@[0].deep_view() == page.deep_view().events[0]);
        Ok(
            (
                SyncState::Applying(
                    EventList {
                        rooms: page.rooms,
                        cursor: page.cursor,
                        events: page.events,
                        at: 0,
                    },
                ),
                SyncAction::Apply(first),
            ),
        )
    }

    fn step_applied(&self, page: EventList, goes_on: bool, size: DatabaseSize) -> (result: Result<
        (SyncState, SyncAction),
        EngineError,
    >)
        requires
            page.at < page.events@.len(),
            page.rooms.at < page.rooms.heads@.len(),
        ensures
            steps(
                result,
                sync_step(
                    self.store@,
                    self.store.budget(),
                    self.user,
                    SyncStateView::Applying(page.deep_view()),
                    SyncEventView::Applied(goes_on),
                    size,
                ),
            ),
    {
        if !goes_on {
            return self.step_following(page.rooms);
        }
        let count = page.events.len();
        if page.at + 1 < count {
            let next = page.events[page.at + 1].clone();
            assert(page.events@[page.at + 1].deep_view() == page.deep_view().events[page.at + 1]);
            return Ok(
                (
                    SyncState::Applying(
                        EventList {
                            rooms: page.rooms,
                            cursor: page.cursor,
                            events: page.events,
                            at: page.at + 1,
                        },
                    ),
                    SyncAction::Apply(next),
                ),
            );
        }
        self.step_fetch(page.rooms)
    }

    fn step_ask_welcomes(&self) -> (result: Result<(SyncState, SyncAction), EngineError>)
        ensures
            steps(result, welcome_question(self.store@)),
    {
        let cursor = self.store.tables.welcome_cursor;
        Ok(
            (
                SyncState::Welcomes { cursor },
                SyncAction::Ask(Request::FetchWelcomes { after_cursor: cursor }),
            ),
        )
    }

    /// What happens next when the client catches up.
    pub fn synchronize(&self, state: SyncState, event: SyncEvent, size: DatabaseSize) -> (result: Result<
        (SyncState, SyncAction),
        EngineError,
    >)
        requires
            state_in_range(state.deep_view()),
        ensures
            steps(
                result,
                sync_step(
                    self.store@,
                    self.store.budget(),
                    self.user,
                    state.deep_view(),
                    event.deep_view(),
                    size,
                ),
            ),
            result matches Ok((next, _)) ==> state_in_range(next.deep_view()),
    {
        match (state, event) {
            (SyncState::Idle, SyncEvent::Start) => self.step_ask_welcomes(),
            (SyncState::Welcomes { cursor }, SyncEvent::Answer(response)) => self.step_welcomes(
                cursor,
                response,
                size,
            ),
            (SyncState::WelcomesWritten { more }, SyncEvent::Written) => {
                if more {
                    self.step_ask_welcomes()
                } else {
                    Ok((SyncState::Joining, SyncAction::Join))
                }
            },
            (SyncState::Joining, SyncEvent::Joined) => Ok(
                (
                    SyncState::Index { after: None },
                    SyncAction::Ask(Request::SyncIndex { after_room: None }),
                ),
            ),
            (SyncState::Index { after }, SyncEvent::Answer(response)) => self.step_index(
                after,
                response,
            ),
            (SyncState::HeadWritten(rooms), SyncEvent::Written) => {
                let room = rooms.heads[rooms.at].room;
                assert(room == rooms.deep_view().heads[rooms.at as int].room);
                if self.unresolved(room) {
                    self.step_following(rooms)
                } else {
                    Ok((SyncState::Finding(rooms), SyncAction::FindGroup(room)))
                }
            },
            (SyncState::Finding(rooms), SyncEvent::Group(found)) => {
                if found {
                    self.step_fetch(rooms)
                } else {
                    self.step_following(rooms)
                }
            },
            (SyncState::Events { rooms, cursor }, SyncEvent::Answer(response)) => self.step_events(
                rooms,
                cursor,
                response,
                size,
            ),
            (SyncState::EventWritten(page), SyncEvent::Written) => self.step_written(page, size),
            (SyncState::Applying(page), SyncEvent::Applied(goes_on)) => self.step_applied(
                page,
                goes_on,
                size,
            ),
            _ => refused(Refusal::UnexpectedResponse),
        }
    }
}

/// Rows behind other rows.
spec fn rows_behind(
    first: Seq<ClientChangeView>,
    rest: Result<Seq<ClientChangeView>, EngineError>,
) -> Result<Seq<ClientChangeView>, EngineError> {
    match rest {
        Ok(rows) => Ok(first + rows),
        Err(error) => Err(error),
    }
}

} // verus!
