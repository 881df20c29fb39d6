//! What clients can rely on about the list of their rooms: its pages join.
use vstd::prelude::*;
use crate::delivery::{RoomHeadView, PAGE_SIZE};
use crate::ids::{RoomId, UserId};
use crate::order::room_order;
use crate::relay::pages::{index_is_sorted, short_index_is_whole};
use crate::relay::reads::{
    index_page, listed, next_listed, room_entries, room_entry, rooms_behind,
};
use crate::relay::tables::{RelayView, RoomRowView};
use crate::requests::ResponseView;

verus! {

/// A list that goes on is made of its beginning and of the list behind that.
proof fn index_splits(
    view: RelayView,
    user: UserId,
    after: Option<RoomId>,
    count: nat,
    more: nat,
)
    requires
        count > 0,
        rooms_behind(view, user, after, count).len() == count,
    ensures
        rooms_behind(view, user, after, count + more) == rooms_behind(view, user, after, count)
            + rooms_behind(
            view,
            user,
            Some(rooms_behind(view, user, after, count).last()),
            more,
        ),
    decreases count,
{
    let first = choose|room: RoomId| next_listed(view, user, after, room);
    let rest = rooms_behind(view, user, Some(first), (count - 1) as nat);
    let all = rooms_behind(view, user, after, count);
    assert(all =~= seq![first] + rest);
    if count > 1 {
        index_splits(view, user, Some(first), (count - 1) as nat, more);
        assert(all.last() == rest.last());
    }
    assert((count + more - 1) as nat == (count - 1) as nat + more);
    assert(rooms_behind(view, user, after, count + more) =~= all + rooms_behind(
        view,
        user,
        Some(all.last()),
        more,
    ));
}

/// A list that is shorter than it may be does not grow.
proof fn short_index_stays(
    view: RelayView,
    user: UserId,
    after: Option<RoomId>,
    count: nat,
    more: nat,
)
    requires
        rooms_behind(view, user, after, count).len() < count,
    ensures
        rooms_behind(view, user, after, count + more) == rooms_behind(view, user, after, count),
    decreases count,
{
    if exists|room: RoomId| next_listed(view, user, after, room) {
        let first = choose|room: RoomId| next_listed(view, user, after, room);
        let rest = rooms_behind(view, user, Some(first), (count - 1) as nat);
        assert(rooms_behind(view, user, after, count) =~= seq![first] + rest);
        short_index_stays(view, user, Some(first), (count - 1) as nat, more);
        assert((count + more - 1) as nat == (count - 1) as nat + more);
    }
}

/// The rooms of a page, and whether more are announced.
proof fn index_page_rooms(view: RelayView, user: UserId, after: Option<RoomId>)
    ensures
        index_page(view, user, after) matches Ok((ResponseView::SyncIndex { rooms, more }, _))
            && rooms == room_entries(
            view,
            rooms_behind(view, user, after, PAGE_SIZE as nat),
        ) && (more ==> rooms.len() == PAGE_SIZE) && (!more ==> forall|count: nat|
            count >= PAGE_SIZE ==> #[trigger] rooms_behind(view, user, after, count)
                == rooms_behind(view, user, after, PAGE_SIZE as nat)),
{
    let page = rooms_behind(view, user, after, PAGE_SIZE as nat);
    let longer = rooms_behind(view, user, after, (PAGE_SIZE + 1) as nat);
    assert((PAGE_SIZE + 1) as nat == PAGE_SIZE as nat + 1);
    index_is_short(view, user, after, PAGE_SIZE as nat);
    index_is_short(view, user, after, (PAGE_SIZE + 1) as nat);
    if page.len() < PAGE_SIZE {
        short_index_stays(view, user, after, PAGE_SIZE as nat, 1);
    } else {
        index_splits(view, user, after, PAGE_SIZE as nat, 1);
        assert(longer.take(PAGE_SIZE as int) =~= page);
    }
    if longer.len() <= PAGE_SIZE {
        assert(longer =~= page);
        assert forall|count: nat| count >= PAGE_SIZE implies #[trigger] rooms_behind(
            view,
            user,
            after,
            count,
        ) == page by {
            if count > PAGE_SIZE {
                let more = (count - PAGE_SIZE - 1) as nat;
                assert(count == (PAGE_SIZE + 1) as nat + more);
                short_index_stays(view, user, after, (PAGE_SIZE + 1) as nat, more);
            }
        }
    }
}

proof fn index_is_short(view: RelayView, user: UserId, after: Option<RoomId>, count: nat)
    ensures
        rooms_behind(view, user, after, count).len() <= count,
    decreases count,
{
    if count > 0 && exists|room: RoomId| next_listed(view, user, after, room) {
        let first = choose|room: RoomId| next_listed(view, user, after, room);
        index_is_short(view, user, Some(first), (count - 1) as nat);
    }
}

/// What a user reads who asks for their rooms behind one, and then on behind the
/// last room of each page until none announces more, for at most so many pages.
pub open spec fn index_read(view: RelayView, user: UserId, after: Option<RoomId>, pages: nat) -> Seq<
    RoomHeadView,
>
    decreases pages,
{
    if pages == 0 {
        Seq::empty()
    } else {
        match index_page(view, user, after) {
            Ok((ResponseView::SyncIndex { rooms, more }, _)) => if more && rooms.len() > 0 {
                rooms + index_read(view, user, Some(rooms.last().room), (pages - 1) as nat)
            } else {
                rooms
            },
            _ => Seq::empty(),
        }
    }
}

/// Reading on behind the last room of a page gives what the page left.
pub proof fn next_index_page_continues(
    view: RelayView,
    user: UserId,
    after: Option<RoomId>,
    pages: nat,
)
    ensures
        index_read(view, user, after, pages) == room_entries(
            view,
            rooms_behind(view, user, after, pages * PAGE_SIZE as nat),
        ),
    decreases pages,
{
    if pages > 0 {
        index_page_rooms(view, user, after);
        let page = rooms_behind(view, user, after, PAGE_SIZE as nat);
        let response = index_page(view, user, after)->Ok_0.0;
        let left = ((pages - 1) * PAGE_SIZE) as nat;
        assert(pages * PAGE_SIZE == PAGE_SIZE + (pages - 1) * PAGE_SIZE) by (nonlinear_arith);
        assert(left == ((pages - 1) as nat) * PAGE_SIZE as nat);
        assert(pages * PAGE_SIZE as nat == PAGE_SIZE as nat + left);
        if response->SyncIndex_more {
            let last = page.last();
            index_splits(view, user, after, PAGE_SIZE as nat, left);
            next_index_page_continues(view, user, Some(last), (pages - 1) as nat);
            assert(response->SyncIndex_rooms.last().room == last);
            assert(index_read(view, user, after, pages) =~= room_entries(
                view,
                page + rooms_behind(view, user, Some(last), left),
            ));
        }
    } else {
        assert(room_entries(view, rooms_behind(view, user, after, 0)) =~= Seq::empty());
    }
}

/// There are no more rooms on a list than there are rooms.
proof fn index_within_rooms(view: RelayView, user: UserId, after: Option<RoomId>, count: nat)
    ensures
        rooms_behind(view, user, after, count).len() <= view.rooms.len(),
{
    index_is_sorted(view, user, after, count);
    let list = rooms_behind(view, user, after, count);
    let known = view.rooms.map_values(|row: RoomRowView| row.room);
    assert(list.no_duplicates()) by {
        assert forall|i: int, j: int|
            0 <= i < list.len() && 0 <= j < list.len() && i != j implies list[i] != list[j] by {
            if i < j {
                assert(room_order(list[i]) < room_order(list[j]));
            } else {
                assert(room_order(list[j]) < room_order(list[i]));
            }
        }
    }
    assert forall|room: RoomId| list.to_set().contains(room) implies known.to_set().contains(
        room,
    ) by {
        let i = list.index_of(room);
        assert(listed(view, user, after, list[i]));
        let k = choose|k: int| 0 <= k < view.rooms.len() && (#[trigger] view.rooms[k]).room == room;
        assert(known[k] == room);
    }
    list.unique_seq_to_set();
    known.lemma_cardinality_of_set();
    vstd::set_lib::lemma_len_subset(list.to_set(), known.to_set());
}

/// Reading page after page lists every room of the user behind the start once, in
/// order, with its name and its head.
pub proof fn index_pages_join(view: RelayView, user: UserId, after: Option<RoomId>, pages: nat)
    requires
        view.rooms.len() < pages * PAGE_SIZE,
    ensures
        forall|i: int|
            0 <= i < index_read(view, user, after, pages).len() ==> listed(
                view,
                user,
                after,
                (#[trigger] index_read(view, user, after, pages)[i]).room,
            ) && index_read(view, user, after, pages)[i] == room_entry(
                view,
                index_read(view, user, after, pages)[i].room,
            ),
        forall|i: int, j: int|
            0 <= i < j < index_read(view, user, after, pages).len() ==> room_order(
                (#[trigger] index_read(view, user, after, pages)[i]).room,
            ) < room_order((#[trigger] index_read(view, user, after, pages)[j]).room),
        forall|room: RoomId| #[trigger]
            listed(view, user, after, room) ==> index_read(view, user, after, pages).contains(
                room_entry(view, room),
            ),
{
    let count = pages * PAGE_SIZE as nat;
    next_index_page_continues(view, user, after, pages);
    index_is_sorted(view, user, after, count);
    index_within_rooms(view, user, after, count);
    let list = rooms_behind(view, user, after, count);
    let read = index_read(view, user, after, pages);
    assert forall|room: RoomId| #[trigger] listed(view, user, after, room) implies read.contains(
        room_entry(view, room),
    ) by {
        short_index_is_whole(view, user, after, count, room);
        let k = list.index_of(room);
        assert(read[k] == room_entry(view, room));
    }
    assert forall|i: int| 0 <= i < read.len() implies listed(
        view,
        user,
        after,
        (#[trigger] read[i]).room,
    ) && read[i] == room_entry(view, read[i].room) by {
        assert(listed(view, user, after, list[i]));
    }
    assert forall|i: int, j: int| 0 <= i < j < read.len() implies room_order(
        (#[trigger] read[i]).room,
    ) < room_order((#[trigger] read[j]).room) by {
        assert(room_order(list[i]) < room_order(list[j]));
    }
}

} // verus!
