//! What a delivery does to what the relay stores, and when which answer is owed.
use vstd::prelude::*;
use crate::crypto::sha256;
use crate::delivery::{AppendView, Event, EventView, WelcomeDelivery};
use crate::ids::{MessageId, RoomId, UserId};
use crate::protocol::{decoded, normalized_name};
use crate::relay::deliver::{execution, outcome, OutcomeView};
use crate::relay::limits::StorageFacts;
use crate::relay::service::{
    after_delivery, execution_admitted, journal_untouched, journals, StateView,
};
use crate::relay::sound::{kept_answer_bounded, operation_bounded, sound, welcome_bounded};
use crate::relay::tables::{
    all_applied, applied, first_package, last_cursor, room_head, room_head_bounds, room_head_taken,
    AllocationRowView, ChangeView, EventRowView, PackageRowView, RelayView, RequestRowView,
    RoomRowView, StorageError, WelcomeRowView,
};
use crate::relay::writes::{
    extension, first_room, packages_size, packages_waiting, recent_allocations,
    recent_pair_allocations, rooms_created, welcoming,
};
use crate::requests::{Rejection, Request, RequestView, Response, ResponseView};
use crate::wire::Wire;

verus! {

/// A request as it comes to the relay, with what the relay learns from its system:
/// the state of the database, the time, and an identifier for a room that it may
/// create.
pub struct Delivery {
    pub facts: StorageFacts,
    pub user: UserId,
    pub id: MessageId,
    pub request: RequestView,
    pub now: i64,
    pub fresh: Option<RoomId>,
}

/// What a delivery comes to.
pub open spec fn delivered(state: StateView, d: Delivery) -> Result<OutcomeView, StorageError> {
    outcome(state.tables, state.limits, d.facts, d.user, d.id, d.request, d.now, d.fresh)
}

/// What the client is answered.
pub open spec fn answer(state: StateView, d: Delivery) -> Result<ResponseView, StorageError> {
    match delivered(state, d) {
        Ok(done) => Ok(done.response),
        Err(error) => Err(error),
    }
}

/// The relay afterwards.
pub open spec fn after(state: StateView, d: Delivery) -> StateView {
    after_delivery(state, delivered(state, d))
}

/// Whether a request comes for the first time, and does more than to read or to
/// confirm.
pub open spec fn writes_anew(state: StateView, d: Delivery) -> bool {
    &&& !state.tables.requests.contains_key((d.user, d.id))
    &&& d.request is CreateRoom || d.request is PublishKeyPackages || d.request is SetFetchGrant
        || d.request is ReserveKeyPackage || d.request is AppendRoomOperation
}

/// What storing a request costs.
pub open spec fn cost(request: RequestView) -> int {
    3 * (Request::encoded(request).len() as int) + 16384
}

/// What has been charged under a key.
pub open spec fn paid<K>(usage: Map<K, u64>, key: K) -> int {
    if usage.contains_key(key) {
        usage[key] as int
    } else {
        0
    }
}

/// Whether there is room for a request under every limit.
pub open spec fn affordable(state: StateView, d: Delivery) -> bool {
    let need = cost(d.request);
    let stored = d.facts.page_size * d.facts.page_count;
    &&& Request::encoded(d.request).len() <= 786432
    &&& stored + need <= state.limits.global
    &&& d.facts.wal matches Ok(log) && stored + log + need <= state.limits.global
        + state.limits.reserve
    &&& paid(state.tables.sender_usage, d.user) + need <= state.limits.sender
    &&& paid(state.tables.sender_usage, d.user) + need <= 0x7fff_ffff_ffff_ffff
    &&& d.request matches RequestView::AppendRoomOperation(operation) ==> paid(
        state.tables.room_usage,
        operation.room,
    ) + need <= state.limits.room && paid(state.tables.room_usage, operation.room) + need
        <= 0x7fff_ffff_ffff_ffff
    &&& d.facts.available matches Ok(free) && state.limits.reserve + need <= free
}

/// Whether some limit leaves no room for a request.
pub open spec fn unaffordable(state: StateView, d: Delivery) -> bool {
    let need = cost(d.request);
    let stored = d.facts.page_size * d.facts.page_count;
    ||| state.limits.global < u64::MAX && stored + need > state.limits.global
    ||| state.limits.global + state.limits.reserve < u64::MAX && stored + d.facts.wal->Ok_0 + need
        > state.limits.global + state.limits.reserve
    ||| state.limits.sender < u64::MAX && paid(state.tables.sender_usage, d.user) + need
        > state.limits.sender
    ||| d.request is AppendRoomOperation && state.limits.room < u64::MAX && paid(
        state.tables.room_usage,
        d.request->AppendRoomOperation_0.room,
    ) + need > state.limits.room
    ||| state.limits.reserve + need <= u64::MAX && d.facts.available->Ok_0 < state.limits.reserve
        + need
}

/// An answer that a later try may not get.
pub open spec fn momentary(response: ResponseView) -> bool {
    response == ResponseView::Rejected(Rejection::Quota) || response == ResponseView::Rejected(
        Rejection::Overloaded,
    ) || response == ResponseView::Rejected(Rejection::Internal)
}

/// Whether a delivery leaves these tables, with the request charged to its sender, and
/// to the room that it appends to, and with its answer kept under its identifier.
pub open spec fn booked(
    state: StateView,
    d: Delivery,
    response: ResponseView,
    tables: RelayView,
) -> bool {
    let before = state.tables;
    after(state, d).tables == (RelayView {
        sender_usage: before.sender_usage.insert(
            d.user,
            (paid(before.sender_usage, d.user) + cost(d.request)) as u64,
        ),
        room_usage: match d.request {
            RequestView::AppendRoomOperation(operation) => before.room_usage.insert(
                operation.room,
                (paid(before.room_usage, operation.room) + cost(d.request)) as u64,
            ),
            _ => before.room_usage,
        },
        requests: before.requests.insert(
            (d.user, d.id),
            RequestRowView {
                hash: sha256(Request::encoded(d.request)),
                response: Response::encoded(response),
            },
        ),
        ..tables
    })
}

proof fn with_books(
    view: RelayView,
    changes: Seq<ChangeView>,
    user: UserId,
    id: MessageId,
    request: RequestView,
    response: ResponseView,
)
    requires
        forall|i: int| 0 <= i < changes.len() ==> !journals(#[trigger] changes[i]),
        request !is Acknowledge,
        Request::encoded(request).len() <= 786432,
        paid(view.sender_usage, user) + cost(request) <= 0x7fff_ffff_ffff_ffff,
        request matches RequestView::AppendRoomOperation(operation) ==> paid(
            view.room_usage,
            operation.room,
        ) + cost(request) <= 0x7fff_ffff_ffff_ffff,
    ensures
        ({
            let kept = ChangeView::Request {
                user,
                id,
                hash: crate::transcripts::request_hash(request),
                response: Response::encoded(response),
            };
            let all = crate::relay::deliver::with_charges(changes, user, request).push(kept);
            let own = all_applied(view, changes);
            all_applied(view, all) == (RelayView {
                sender_usage: view.sender_usage.insert(
                    user,
                    (paid(view.sender_usage, user) + cost(request)) as u64,
                ),
                room_usage: match request {
                    RequestView::AppendRoomOperation(operation) => view.room_usage.insert(
                        operation.room,
                        (paid(view.room_usage, operation.room) + cost(request)) as u64,
                    ),
                    _ => view.room_usage,
                },
                requests: view.requests.insert(
                    (user, id),
                    RequestRowView {
                        hash: sha256(Request::encoded(request)),
                        response: Response::encoded(response),
                    },
                ),
                ..own
            })
        }),
{
    let kept = ChangeView::Request {
        user,
        id,
        hash: crate::transcripts::request_hash(request),
        response: Response::encoded(response),
    };
    let charges = crate::relay::deliver::with_charges(changes, user, request);
    let all = charges.push(kept);
    journal_untouched(view, changes);
    let bytes = crate::relay::limits::charge(Request::encoded(request).len()) as u64;
    let sender = changes.push(ChangeView::SenderUsage { user, bytes });
    assert(sender.drop_last() =~= changes);
    let own = all_applied(view, changes);
    let first = all_applied(view, sender);
    assert(first == applied(own, sender.last()));
    if request is AppendRoomOperation {
        assert(charges.drop_last() =~= sender);
        assert(all_applied(view, charges) == applied(first, charges.last()));
    } else {
        assert(charges == sender);
    }
    assert(all.drop_last() =~= charges);
    assert(all_applied(view, all) == applied(all_applied(view, charges), kept));
}

/// A request for which there is room is carried out; what it does on its own, the
/// charge for it and its answer are written together.
proof fn carried_out(state: StateView, d: Delivery)
    requires
        sound(state.tables),
        writes_anew(state, d),
        affordable(state, d),
        execution(state.tables, d.user, d.id, d.request, d.now, d.fresh) is Ok,
    ensures
        ({
            let own = execution(state.tables, d.user, d.id, d.request, d.now, d.fresh)->Ok_0;
            &&& answer(state, d) == Ok::<ResponseView, StorageError>(own.0)
            &&& if momentary(own.0) {
                after(state, d).tables == all_applied(state.tables, own.1)
            } else {
                booked(state, d, own.0, all_applied(state.tables, own.1))
            }
        }),
{
    let view = state.tables;
    let (response, changes) = execution(view, d.user, d.id, d.request, d.now, d.fresh)->Ok_0;
    assert(crate::relay::limits::admission(
        state.limits,
        view,
        d.facts,
        d.user,
        d.request,
    ) == Ok::<bool, StorageError>(true));
    execution_admitted(view, d.user, d.id, d.request, d.now, d.fresh);
    kept_answer_bounded(view, d.user, d.id, d.request, d.now, d.fresh);
    if !momentary(response) {
        with_books(view, changes, d.user, d.id, d.request, response);
    }
}

/// Where some limit leaves no room, a new request is refused for it, and nothing but
/// a counter changes.
pub proof fn limits_refuse(state: StateView, d: Delivery)
    requires
        writes_anew(state, d),
        Request::encoded(d.request).len() <= 786432,
        d.facts.wal is Ok,
        d.facts.available is Ok,
        unaffordable(state, d),
    ensures
        answer(state, d) == Ok::<ResponseView, StorageError>(
            ResponseView::Rejected(Rejection::Quota),
        ),
        after(state, d).tables == state.tables,
        after(state, d).limits == state.limits,
{
    let none = Seq::<ChangeView>::empty();
    assert(all_applied(state.tables, none) == state.tables);
    assert(crate::relay::limits::admission(
        state.limits,
        state.tables,
        d.facts,
        d.user,
        d.request,
    ) == Ok::<bool, StorageError>(false));
}

/// The position of the room's row among the rooms.
pub open spec fn stands_at(rooms: Seq<RoomRowView>, room: RoomId, at: int) -> bool {
    &&& 0 <= at < rooms.len()
    &&& rooms[at].room == room
    &&& forall|i: int| 0 <= i < at ==> (#[trigger] rooms[i]).room != room
}

/// The position of the oldest waiting package of a user.
pub open spec fn oldest_package(packages: Seq<PackageRowView>, user: UserId, at: int) -> bool {
    &&& 0 <= at < packages.len()
    &&& packages[at].user == user
    &&& forall|i: int| 0 <= i < at ==> (#[trigger] packages[i]).user != user
}

/// How many rooms a user created.
pub open spec fn created_by(rooms: Seq<RoomRowView>, user: UserId) -> nat {
    rooms.filter(|row: RoomRowView| row.created_by == user).len()
}

/// How many packages of a user wait.
pub open spec fn waiting_of(packages: Seq<PackageRowView>, user: UserId) -> nat {
    packages.filter(|row: PackageRowView| row.user == user).len()
}

/// How many packages of a recipient were handed out after a time.
pub open spec fn taken_since(
    allocations: Seq<AllocationRowView>,
    recipient: UserId,
    since: int,
) -> nat {
    allocations.filter(
        |row: AllocationRowView| row.recipient == recipient && row.allocated_at > since,
    ).len()
}

/// How many packages of a recipient one requester was handed after a time.
pub open spec fn taken_by_since(
    allocations: Seq<AllocationRowView>,
    recipient: UserId,
    requester: UserId,
    since: int,
) -> nat {
    allocations.filter(
        |row: AllocationRowView|
            row.recipient == recipient && row.requester == requester && row.allocated_at > since,
    ).len()
}

proof fn created_counted(rooms: Seq<RoomRowView>, user: UserId)
    ensures
        rooms_created(rooms, user) == created_by(rooms, user),
    decreases rooms.len(),
{
    reveal(Seq::filter);
    if rooms.len() > 0 {
        created_counted(rooms.drop_last(), user);
    }
}

proof fn waiting_counted(packages: Seq<PackageRowView>, user: UserId)
    ensures
        packages_waiting(packages, user) == waiting_of(packages, user),
    decreases packages.len(),
{
    reveal(Seq::filter);
    if packages.len() > 0 {
        waiting_counted(packages.drop_last(), user);
    }
}

pub(crate) proof fn taken_counted(allocations: Seq<AllocationRowView>, recipient: UserId, now: i64)
    ensures
        recent_allocations(allocations, recipient, now) == taken_since(
            allocations,
            recipient,
            now - 3600,
        ),
    decreases allocations.len(),
{
    reveal(Seq::filter);
    if allocations.len() > 0 {
        taken_counted(allocations.drop_last(), recipient, now);
    }
}

pub(crate) proof fn taken_by_counted(
    allocations: Seq<AllocationRowView>,
    recipient: UserId,
    requester: UserId,
    now: i64,
)
    ensures
        recent_pair_allocations(allocations, recipient, requester, now) == taken_by_since(
            allocations,
            recipient,
            requester,
            now - 3600,
        ),
    decreases allocations.len(),
{
    reveal(Seq::filter);
    if allocations.len() > 0 {
        taken_by_counted(allocations.drop_last(), recipient, requester, now);
    }
}

pub(crate) proof fn first_package_is_oldest(packages: Seq<PackageRowView>, user: UserId)
    ensures
        ({
            let at = first_package(packages, user);
            if at < packages.len() {
                oldest_package(packages, user, at as int)
            } else {
                forall|i: int| 0 <= i < packages.len() ==> (#[trigger] packages[i]).user != user
            }
        }),
    decreases packages.len(),
{
    if packages.len() > 0 && packages[0].user != user {
        let rest = packages.skip(1);
        first_package_is_oldest(rest, user);
        assert forall|i: int| 1 <= i < packages.len() implies #[trigger] packages[i] == rest[i
            - 1] by {}
    }
}

pub(crate) proof fn first_room_stands(rooms: Seq<RoomRowView>, room: RoomId)
    ensures
        ({
            let at = first_room(rooms, room);
            if at < rooms.len() {
                stands_at(rooms, room, at as int)
            } else {
                forall|i: int| 0 <= i < rooms.len() ==> (#[trigger] rooms[i]).room != room
            }
        }),
    decreases rooms.len(),
{
    if rooms.len() > 0 && rooms[0].room != room {
        let rest = rooms.skip(1);
        first_room_stands(rest, room);
        assert forall|i: int| 1 <= i < rooms.len() implies #[trigger] rooms[i] == rest[i - 1] by {}
    }
}

proof fn two_applied(view: RelayView, first: ChangeView, second: ChangeView)
    ensures
        all_applied(view, seq![first, second]) == applied(applied(view, first), second),
{
    let both = seq![first, second];
    assert(both.drop_last() =~= seq![first]);
    assert(seq![first].drop_last() =~= Seq::<ChangeView>::empty());
    assert(all_applied(view, Seq::<ChangeView>::empty()) == view);
    assert(all_applied(view, seq![first]) == applied(view, first));
}

/// A request to create a room, for which there is room: it is refused as invalid
/// exactly where the name is no name, refused for quota exactly where its sender
/// already created 64 rooms, and otherwise the room is stored under the name as it is
/// kept, with its creator as its only new subscriber.
pub proof fn creating_a_room(state: StateView, d: Delivery, name: Seq<char>)
    requires
        sound(state.tables),
        writes_anew(state, d),
        affordable(state, d),
        d.request == (RequestView::CreateRoom { name }),
        normalized_name(name) is Ok && created_by(state.tables.rooms, d.user) < 64
            ==> d.fresh is Some && forall|i: int|
            0 <= i < state.tables.rooms.len() ==> (#[trigger] state.tables.rooms[i]).room
                != d.fresh->Some_0,
    ensures
        match answer(state, d) {
            Ok(response) => match response {
                ResponseView::Rejected(Rejection::Invalid) => normalized_name(name) is Err
                    && booked(state, d, response, state.tables),
                ResponseView::Rejected(Rejection::Quota) => normalized_name(name) is Ok
                    && created_by(state.tables.rooms, d.user) >= 64 && after(state, d).tables
                    == state.tables,
                ResponseView::RoomCreated { room } => {
                    &&& d.fresh == Some(room)
                    &&& created_by(state.tables.rooms, d.user) < 64
                    &&& normalized_name(name) is Ok
                    &&& booked(
                        state,
                        d,
                        response,
                        RelayView {
                            rooms: state.tables.rooms.push(
                                RoomRowView {
                                    room,
                                    name: normalized_name(name)->Ok_0,
                                    created_by: d.user,
                                },
                            ),
                            subscribers: state.tables.subscribers.insert((room, d.user)),
                            ..state.tables
                        },
                    )
                },
                _ => false,
            },
            Err(_) => false,
        },
{
    created_counted(state.tables.rooms, d.user);
    carried_out(state, d);
    assert(all_applied(state.tables, Seq::<ChangeView>::empty()) == state.tables);
    if normalized_name(name) is Ok && d.fresh is Some {
        let room = d.fresh->Some_0;
        two_applied(
            state.tables,
            ChangeView::Room { room, name: normalized_name(name)->Ok_0, created_by: d.user },
            ChangeView::Subscriber { room, user: d.user },
        );
    }
}

/// The bytes of packages together.
pub open spec fn bytes_of(packages: Seq<Seq<u8>>) -> int {
    packages.fold_left(0int, |sum: int, package: Seq<u8>| sum + package.len())
}

proof fn size_is_sum(packages: Seq<Seq<u8>>)
    ensures
        packages_size(packages) == bytes_of(packages),
    decreases packages.len(),
{
    if packages.len() > 0 {
        size_is_sum(packages.drop_last());
    }
}

proof fn packages_added(view: RelayView, user: UserId, packages: Seq<Seq<u8>>)
    ensures
        all_applied(
            view,
            Seq::new(
                packages.len(),
                |i: int| ChangeView::Package { user, package: packages[i] },
            ),
        ) == (RelayView {
            packages: view.packages + packages.map_values(
                |package: Seq<u8>| PackageRowView { user, package },
            ),
            ..view
        }),
    decreases packages.len(),
{
    let changes = Seq::new(
        packages.len(),
        |i: int| ChangeView::Package { user, package: packages[i] },
    );
    let rows = packages.map_values(|package: Seq<u8>| PackageRowView { user, package });
    if packages.len() > 0 {
        let fewer = packages.drop_last();
        packages_added(view, user, fewer);
        let less = Seq::new(fewer.len(), |i: int| ChangeView::Package { user, package: fewer[i] });
        assert(changes.drop_last() =~= less);
        let before = fewer.map_values(|package: Seq<u8>| PackageRowView { user, package });
        assert(rows =~= before.push(PackageRowView { user, package: packages.last() }));
        assert(view.packages + rows =~= (view.packages + before).push(
            PackageRowView { user, package: packages.last() },
        ));
    } else {
        assert(changes =~= Seq::<ChangeView>::empty());
        assert(view.packages + rows =~= view.packages);
    }
}

/// A request to publish packages, for which there is room: it is refused as invalid
/// exactly where there are none or more than 64, where one is empty or larger than
/// sixteen kibibytes, or where they are larger than a message together; refused for
/// quota exactly where more than 64 would wait; and otherwise the packages wait after
/// those that waited, in the order in which they were given.
pub proof fn publishing_packages(state: StateView, d: Delivery, packages: Seq<Seq<u8>>)
    requires
        sound(state.tables),
        writes_anew(state, d),
        affordable(state, d),
        d.request == (RequestView::PublishKeyPackages { packages }),
    ensures
        ({
            let valid = 1 <= packages.len() <= 64 && bytes_of(packages) <= 786432 && (forall|i: int|
                0 <= i < packages.len() ==> 1 <= (#[trigger] packages[i]).len() <= 16384);
            let room = waiting_of(state.tables.packages, d.user) + packages.len() <= 64;
            match answer(state, d) {
                Ok(response) => match response {
                    ResponseView::Rejected(Rejection::Invalid) => !valid && booked(
                        state,
                        d,
                        response,
                        state.tables,
                    ),
                    ResponseView::Rejected(Rejection::Quota) => valid && !room && after(
                        state,
                        d,
                    ).tables == state.tables,
                    ResponseView::KeyPackagesPublished { count } => valid && room && count
                        == packages.len() && booked(
                        state,
                        d,
                        response,
                        RelayView {
                            packages: state.tables.packages + packages.map_values(
                                |package: Seq<u8>| PackageRowView { user: d.user, package },
                            ),
                            ..state.tables
                        },
                    ),
                    _ => false,
                },
                Err(_) => false,
            }
        }),
{
    waiting_counted(state.tables.packages, d.user);
    size_is_sum(packages);
    carried_out(state, d);
    packages_added(state.tables, d.user, packages);
    assert(all_applied(state.tables, Seq::<ChangeView>::empty()) == state.tables);
}

/// A request to grant or to revoke, for which there is room, adds or takes away the
/// pair of its sender, whose packages they are, and the requester.
pub proof fn granting_a_fetch(state: StateView, d: Delivery, requester: UserId, allowed: bool)
    requires
        sound(state.tables),
        writes_anew(state, d),
        affordable(state, d),
        d.request == (RequestView::SetFetchGrant { requester, allowed }),
    ensures
        answer(state, d) == Ok::<ResponseView, StorageError>(ResponseView::FetchGrantSet),
        booked(
            state,
            d,
            ResponseView::FetchGrantSet,
            RelayView {
                grants: if allowed {
                    state.tables.grants.insert((d.user, requester))
                } else {
                    state.tables.grants.remove((d.user, requester))
                },
                ..state.tables
            },
        ),
{
    carried_out(state, d);
    let change = if allowed {
        ChangeView::Grant { recipient: d.user, requester }
    } else {
        ChangeView::GrantRevoked { recipient: d.user, requester }
    };
    assert(seq![change].drop_last() =~= Seq::<ChangeView>::empty());
    assert(all_applied(state.tables, Seq::<ChangeView>::empty()) == state.tables);
    assert(all_applied(state.tables, seq![change]) == applied(state.tables, change));
}

/// A request for a package of a recipient, for which there is room: it is refused as
/// not allowed exactly without a grant; told to come back later exactly where, in the
/// last 3600 seconds, 16 packages of the recipient were handed out or 4 of them to
/// this requester; told that there is none exactly where none waits; and otherwise
/// answered with the oldest, which waits no longer and is counted.
pub proof fn reserving_a_package(state: StateView, d: Delivery, recipient: UserId)
    requires
        sound(state.tables),
        writes_anew(state, d),
        affordable(state, d),
        d.request == (RequestView::ReserveKeyPackage { recipient }),
    ensures
        ({
            let granted = state.tables.grants.contains((recipient, d.user));
            let fewer = taken_since(state.tables.allocations, recipient, d.now - 3600) < 16
                && taken_by_since(state.tables.allocations, recipient, d.user, d.now - 3600) < 4;
            let packages = state.tables.packages;
            match answer(state, d) {
                Ok(response) => match response {
                    ResponseView::Rejected(Rejection::Unauthorized) => !granted && booked(
                        state,
                        d,
                        response,
                        state.tables,
                    ),
                    ResponseView::Rejected(Rejection::Overloaded) => granted && !fewer && after(
                        state,
                        d,
                    ).tables == state.tables,
                    ResponseView::Rejected(Rejection::NotFound) => {
                        &&& granted
                        &&& fewer
                        &&& forall|i: int|
                            0 <= i < packages.len() ==> (#[trigger] packages[i]).user != recipient
                        &&& booked(state, d, response, state.tables)
                    },
                    ResponseView::KeyPackage { recipient: of, package } => {
                        &&& granted
                        &&& fewer
                        &&& of == recipient
                        &&& exists|at: int| #[trigger]
                            oldest_package(packages, recipient, at) && package
                                == packages[at].package && booked(
                                state,
                                d,
                                response,
                                RelayView {
                                    packages: packages.remove(at),
                                    allocations: state.tables.allocations.push(
                                        AllocationRowView {
                                            requester: d.user,
                                            recipient,
                                            allocated_at: d.now,
                                        },
                                    ),
                                    ..state.tables
                                },
                            )
                    },
                    _ => false,
                },
                Err(_) => false,
            }
        }),
{
    taken_counted(state.tables.allocations, recipient, d.now);
    taken_by_counted(state.tables.allocations, recipient, d.user, d.now);
    first_package_is_oldest(state.tables.packages, recipient);
    carried_out(state, d);
    two_applied(
        state.tables,
        ChangeView::PackageTaken { user: recipient },
        ChangeView::Allocation { requester: d.user, recipient, allocated_at: d.now },
    );
    assert(all_applied(state.tables, Seq::<ChangeView>::empty()) == state.tables);
}

/// Whether the newest event of a room stands at a position, zero where it has none.
pub open spec fn newest_at(events: Seq<EventRowView>, room: RoomId, head: int) -> bool {
    &&& forall|i: int|
        0 <= i < events.len() && (#[trigger] events[i]).room == room ==> events[i].sequence <= head
    &&& if head == 0 {
        forall|i: int| 0 <= i < events.len() ==> (#[trigger] events[i]).room != room
    } else {
        exists|i: int|
            0 <= i < events.len() && (#[trigger] events[i]).room == room && events[i].sequence
                == head
    }
}

pub(crate) proof fn head_is_newest(view: RelayView, room: RoomId)
    requires
        sound(view),
    ensures
        newest_at(view.events, room, room_head(view.events, room) as int),
        forall|head: int| #[trigger]
            newest_at(view.events, room, head) ==> head == room_head(view.events, room),
{
    let events = view.events;
    room_head_taken(events, room);
    assert forall|i: int|
        0 <= i < events.len() && (#[trigger] events[i]).room == room implies events[i].sequence
        <= room_head(events, room) && events[i].sequence > 0 by {
        room_head_bounds(events, room, i);
    }
}

pub(crate) proof fn last_cursor_is_last(welcomes: Seq<WelcomeRowView>)
    requires
        forall|i: int, j: int|
            0 <= i < j < welcomes.len() ==> (#[trigger] welcomes[i]).cursor < (
            #[trigger] welcomes[j]).cursor,
        forall|i: int| 0 <= i < welcomes.len() ==> 0 < (#[trigger] welcomes[i]).cursor,
    ensures
        last_cursor(welcomes) == if welcomes.len() == 0 {
            0
        } else {
            welcomes.last().cursor
        },
    decreases welcomes.len(),
{
    if welcomes.len() > 0 {
        let fewer = welcomes.drop_last();
        assert forall|i: int| 0 <= i < fewer.len() implies #[trigger] fewer[i] == welcomes[i] by {}
        last_cursor_is_last(fewer);
        if fewer.len() > 0 {
            assert(fewer.last() == welcomes[welcomes.len() - 2]);
            assert(welcomes[welcomes.len() - 2].cursor < welcomes[welcomes.len() - 1].cursor);
        }
    }
}

/// Whether an operation is one that a room can take: its body and its welcome hold
/// something and at most half a mebibyte each, both fit a message together, and the
/// position after its parent is a number that can be stored.
pub open spec fn takable(operation: AppendView) -> bool {
    &&& 1 <= operation.body.len() <= 524288
    &&& operation.parent < 0x7fff_ffff_ffff_ffff
    &&& match operation.welcome {
        Some(attachment) => 1 <= attachment.body.len() <= 524288 && operation.body.len()
            + attachment.body.len() + 256 <= 786432,
        None => operation.body.len() + 256 <= 786432,
    }
}

/// Whether a welcome row holds exactly the welcome that goes with an accepted event:
/// for the room of the operation, under the name that is stored for that room, with
/// the event's identifier, the position after the parent, the appending user as the
/// inviter, and the attachment.
pub open spec fn holds_welcome_of(
    row: WelcomeRowView,
    rooms: Seq<RoomRowView>,
    user: UserId,
    id: MessageId,
    operation: AppendView,
) -> bool {
    &&& operation.welcome matches Some(attachment) && row.recipient == attachment.recipient
    &&& decoded::<WelcomeDelivery>(row.record) matches Ok(delivery) && {
        &&& delivery.room == operation.room
        &&& delivery.event == id
        &&& delivery.sequence == operation.parent + 1
        &&& delivery.inviter == user
        &&& operation.welcome == Some(delivery.attachment)
        &&& delivery.cursor == 0
        &&& forall|i: int|
            0 <= i < rooms.len() && (#[trigger] rooms[i]).room == operation.room
                ==> delivery.room_name == rooms[i].name
        &&& exists|i: int| 0 <= i < rooms.len() && (#[trigger] rooms[i]).room == operation.room
    }
}

/// Whether tables are what an accepted event leaves: the event stands at the end, at
/// the position after its parent; with a welcome, one welcome row more stands at the
/// end, under the cursor after the newest, and the recipient subscribes to the room.
pub open spec fn extended_by(
    before: RelayView,
    tables: RelayView,
    user: UserId,
    id: MessageId,
    operation: AppendView,
) -> bool {
    &&& tables == (RelayView {
        events: tables.events,
        welcomes: tables.welcomes,
        subscribers: tables.subscribers,
        ..before
    })
    &&& tables.events.len() == before.events.len() + 1
    &&& tables.events.drop_last() == before.events
    &&& ({
        let row = tables.events.last();
        &&& row.room == operation.room
        &&& row.sequence == operation.parent + 1
        &&& row.id == id
        &&& row.sender == user
        &&& decoded::<Event>(row.record) matches Ok(event) && event == (EventView {
            id,
            sender: user,
            operation,
        })
    })
    &&& match operation.welcome {
        None => tables.welcomes == before.welcomes && tables.subscribers == before.subscribers,
        Some(attachment) => {
            &&& tables.subscribers == before.subscribers.insert(
                (operation.room, attachment.recipient),
            )
            &&& tables.welcomes.len() == before.welcomes.len() + 1
            &&& tables.welcomes.drop_last() == before.welcomes
            &&& tables.welcomes.last().cursor == if before.welcomes.len() == 0 {
                1
            } else {
                before.welcomes.last().cursor + 1
            }
            &&& holds_welcome_of(tables.welcomes.last(), before.rooms, user, id, operation)
        },
    }
}

proof fn welcome_row_of(
    view: RelayView,
    row: WelcomeRowView,
    user: UserId,
    id: MessageId,
    operation: AppendView,
)
    requires
        sound(view),
        crate::relay::writes::operation_valid(operation),
        operation.welcome is Some,
        welcoming(view, user, id, operation) matches Ok(more) && more[0] == (ChangeView::Welcome {
            cursor: row.cursor,
            recipient: row.recipient,
            record: row.record,
        }),
    ensures
        holds_welcome_of(row, view.rooms, user, id, operation),
{
    let at = first_room(view.rooms, operation.room) as int;
    first_room_stands(view.rooms, operation.room);
    let delivery = crate::relay::writes::waiting_welcome(
        view.rooms[at].name,
        user,
        id,
        operation,
        operation.welcome->Some_0,
    );
    assert(row.record == WelcomeDelivery::encoded(delivery));
    welcome_bounded(delivery);
    assert(forall|i: int|
        0 <= i < view.rooms.len() && (#[trigger] view.rooms[i]).room == operation.room ==> i == at);
}

#[verifier::rlimit(40)]
#[verifier::spinoff_prover]
proof fn extension_effect(view: RelayView, user: UserId, id: MessageId, operation: AppendView)
    requires
        sound(view),
        extension(view, user, id, operation) matches Ok((ResponseView::AppendAccepted { .. }, _)),
    ensures
        extended_by(
            view,
            all_applied(view, extension(view, user, id, operation)->Ok_0.1),
            user,
            id,
            operation,
        ),
{
    let changes = extension(view, user, id, operation)->Ok_0.1;
    let event = EventView { id, sender: user, operation };
    let first = changes[0];
    let once = applied(view, first);
    operation_bounded(event);
    assert(once.events.drop_last() =~= view.events);
    match operation.welcome {
        None => {
            assert(changes =~= seq![first]);
            assert(seq![first].drop_last() =~= Seq::<ChangeView>::empty());
            assert(all_applied(view, Seq::<ChangeView>::empty()) == view);
            assert(all_applied(view, changes) == once);
        },
        Some(attachment) => {
            last_cursor_is_last(view.welcomes);
            let more = welcoming(view, user, id, operation)->Ok_0;
            assert(changes =~= seq![first, more[0], more[1]]);
            let two = seq![first, more[0]];
            assert(changes.drop_last() =~= two);
            two_applied(view, first, more[0]);
            let after = all_applied(view, changes);
            assert(after == applied(applied(once, more[0]), more[1]));
            assert(after.welcomes.drop_last() =~= view.welcomes);
            welcome_row_of(view, after.welcomes.last(), user, id, operation);
        },
    }
}

/// A request to append, for which there is room: it is refused as not allowed exactly
/// where its sender does not subscribe to the room; as invalid exactly where no room
/// can take the operation; answered with the newest position exactly where that is not
/// the parent; refused as conflicting exactly where its identifier names a stored
/// event; and otherwise the event is accepted and stored, with its welcome where there
/// is one.
pub proof fn appending_an_operation(state: StateView, d: Delivery, operation: AppendView)
    requires
        sound(state.tables),
        writes_anew(state, d),
        affordable(state, d),
        d.request == RequestView::AppendRoomOperation(operation),
        operation.welcome is Some && state.tables.welcomes.len() > 0
            ==> state.tables.welcomes.last().cursor < 0x7fff_ffff_ffff_ffff,
    ensures
        ({
            let view = state.tables;
            let subscribed = view.subscribers.contains((operation.room, d.user));
            let newest = newest_at(view.events, operation.room, operation.parent as int);
            let known = exists|i: int|
                0 <= i < view.events.len() && (#[trigger] view.events[i]).id == d.id;
            match answer(state, d) {
                Ok(response) => match response {
                    ResponseView::Rejected(Rejection::Unauthorized) => !subscribed && booked(
                        state,
                        d,
                        response,
                        view,
                    ),
                    ResponseView::Rejected(Rejection::Invalid) => subscribed && !takable(operation)
                        && booked(state, d, response, view),
                    ResponseView::HeadConflict { room, head } => subscribed && takable(operation)
                        && !newest && room == operation.room && newest_at(
                        view.events,
                        room,
                        head as int,
                    ) && booked(state, d, response, view),
                    ResponseView::Rejected(Rejection::RequestConflict) => subscribed && takable(
                        operation,
                    ) && newest && known && booked(state, d, response, view),
                    ResponseView::AppendAccepted { event } => {
                        &&& subscribed
                        &&& takable(operation)
                        &&& newest
                        &&& !known
                        &&& event == (EventView { id: d.id, sender: d.user, operation })
                        &&& exists|tables: RelayView| #[trigger]
                            extended_by(view, tables, d.user, d.id, operation) && booked(
                                state,
                                d,
                                response,
                                tables,
                            )
                    },
                    _ => false,
                },
                Err(_) => false,
            }
        }),
{
    let view = state.tables;
    let own = extension(view, d.user, d.id, operation);
    head_is_newest(view, operation.room);
    last_cursor_is_last(view.welcomes);
    let event = EventView { id: d.id, sender: d.user, operation };
    assert(takable(operation) == crate::relay::writes::operation_valid(operation));
    if view.subscribers.contains((operation.room, d.user)) && takable(operation) {
        operation_bounded(event);
        first_room_stands(view.rooms, operation.room);
        assert(crate::relay::tables::room_known(view.rooms, operation.room));
        let at = first_room(view.rooms, operation.room) as int;
        if let Some(attachment) = operation.welcome {
            welcome_bounded(
                crate::relay::writes::waiting_welcome(
                    view.rooms[at].name,
                    d.user,
                    d.id,
                    operation,
                    attachment,
                ),
            );
        }
    }
    assert(own is Ok);
    carried_out(state, d);
    assert(all_applied(view, Seq::<ChangeView>::empty()) == view);
    if own->Ok_0.0 is AppendAccepted {
        extension_effect(view, d.user, d.id, operation);
    }
}

} // verus!
