//! How many key packages leave in an hour, over any run of deliveries.
use vstd::prelude::*;
use crate::ids::UserId;
use crate::relay::deliver::execution;
use crate::relay::effects::{
    affordable, after, answer, delivered, oldest_package, reserving_a_package, taken_by_counted,
    taken_by_since, taken_counted, taken_since, writes_anew, Delivery,
};
use crate::relay::service::StateView;
use crate::relay::sound::sound;
use crate::relay::tables::{
    all_applied, AllocationRowView, ChangeView, RelayView, StorageError,
};
use crate::requests::{RequestView, ResponseView};

verus! {

/// How many packages of a recipient were handed out in the 3600 seconds that end at a
/// time.
pub open spec fn in_hour(allocations: Seq<AllocationRowView>, recipient: UserId, end: int) -> nat {
    allocations.filter(
        |row: AllocationRowView|
            row.recipient == recipient && end - 3600 < row.allocated_at <= end,
    ).len()
}

/// How many of them went to one requester.
pub open spec fn in_hour_to(
    allocations: Seq<AllocationRowView>,
    recipient: UserId,
    requester: UserId,
    end: int,
) -> nat {
    allocations.filter(
        |row: AllocationRowView|
            row.recipient == recipient && row.requester == requester && end - 3600
                < row.allocated_at <= end,
    ).len()
}

/// Whether no hour saw more than 16 packages of a recipient leave, nor more than 4 of
/// them to one requester.
pub open spec fn hours_kept(allocations: Seq<AllocationRowView>) -> bool {
    &&& forall|recipient: UserId, end: int| #[trigger] in_hour(allocations, recipient, end) <= 16
    &&& forall|recipient: UserId, requester: UserId, end: int| #[trigger]
        in_hour_to(allocations, recipient, requester, end) <= 4
}

proof fn fewer_pass<A>(rows: Seq<A>, narrow: spec_fn(A) -> bool, wide: spec_fn(A) -> bool)
    requires
        forall|row: A| #[trigger] narrow(row) ==> wide(row),
    ensures
        rows.filter(narrow).len() <= rows.filter(wide).len(),
    decreases rows.len(),
{
    reveal(Seq::filter);
    if rows.len() > 0 {
        fewer_pass(rows.drop_last(), narrow, wide);
    }
}

proof fn filter_of_push<A>(rows: Seq<A>, row: A, wanted: spec_fn(A) -> bool)
    ensures
        rows.push(row).filter(wanted).len() == rows.filter(wanted).len() + if wanted(row) {
            1int
        } else {
            0int
        },
{
    reveal(Seq::filter);
    assert(rows.push(row).drop_last() =~= rows);
}

proof fn one_more_keeps_hours(rows: Seq<AllocationRowView>, row: AllocationRowView)
    requires
        hours_kept(rows),
        taken_since(rows, row.recipient, row.allocated_at - 3600) < 16,
        taken_by_since(rows, row.recipient, row.requester, row.allocated_at - 3600) < 4,
    ensures
        hours_kept(rows.push(row)),
{
    let more = rows.push(row);
    assert forall|recipient: UserId, end: int| #[trigger] in_hour(more, recipient, end) <= 16 by {
        let within = |row: AllocationRowView|
            row.recipient == recipient && end - 3600 < row.allocated_at <= end;
        let since = |other: AllocationRowView|
            other.recipient == row.recipient && other.allocated_at > row.allocated_at - 3600;
        assert(in_hour(rows, recipient, end) <= 16);
        filter_of_push(rows, row, within);
        if within(row) {
            fewer_pass(rows, within, since);
        }
    }
    assert forall|recipient: UserId, requester: UserId, end: int| #[trigger]
        in_hour_to(more, recipient, requester, end) <= 4 by {
        let within = |row: AllocationRowView|
            row.recipient == recipient && row.requester == requester && end - 3600
                < row.allocated_at <= end;
        let since = |other: AllocationRowView|
            other.recipient == row.recipient && other.requester == row.requester
                && other.allocated_at > row.allocated_at - 3600;
        assert(in_hour_to(rows, recipient, requester, end) <= 4);
        filter_of_push(rows, row, within);
        if within(row) {
            fewer_pass(rows, within, since);
        }
    }
}

proof fn without_allocation(view: RelayView, changes: Seq<ChangeView>)
    requires
        forall|i: int| 0 <= i < changes.len() ==> (#[trigger] changes[i]) !is Allocation,
    ensures
        all_applied(view, changes).allocations == view.allocations,
    decreases changes.len(),
{
    if changes.len() > 0 {
        let before = changes.drop_last();
        assert forall|i: int| 0 <= i < before.len() implies (
        #[trigger] before[i]) !is Allocation by {
            assert(before[i] == changes[i]);
        }
        without_allocation(view, before);
        assert(changes[changes.len() - 1] !is Allocation);
    }
}

/// What a request does on its own: it hands out a package only where it asks for one,
/// below both limits.
proof fn handed_out(state: StateView, d: Delivery)
    requires
        execution(state.tables, d.user, d.id, d.request, d.now, d.fresh) is Ok,
    ensures
        ({
            let changes = execution(
                state.tables,
                d.user,
                d.id,
                d.request,
                d.now,
                d.fresh,
            )->Ok_0.1;
            ||| forall|i: int| 0 <= i < changes.len() ==> (#[trigger] changes[i]) !is Allocation
            ||| d.request matches RequestView::ReserveKeyPackage { recipient } && changes == seq![
                ChangeView::PackageTaken { user: recipient },
                ChangeView::Allocation { requester: d.user, recipient, allocated_at: d.now },
            ] && taken_since(state.tables.allocations, recipient, d.now - 3600) < 16
                && taken_by_since(state.tables.allocations, recipient, d.user, d.now - 3600) < 4
        }),
{
    match d.request {
        RequestView::ReserveKeyPackage { recipient } => {
            taken_counted(state.tables.allocations, recipient, d.now);
            taken_by_counted(state.tables.allocations, recipient, d.user, d.now);
        },
        RequestView::Acknowledge { events, welcomes } => {
            receipt_changes_nothing(state.tables, d.user, welcomes);
        },
        _ => {},
    }
}

proof fn receipt_changes_nothing(view: RelayView, user: UserId, welcomes: Seq<u64>)
    ensures
        crate::relay::reads::welcomes_confirmed(view, user, welcomes) matches Ok((_, changes))
            ==> changes.len() == 0,
    decreases welcomes.len(),
{
    if welcomes.len() > 0 {
        receipt_changes_nothing(view, user, welcomes.skip(1));
    }
}

/// No delivery takes more out of an hour than it may: after every one, no 3600 seconds
/// saw more than 16 packages of a recipient leave, nor more than 4 of them to one
/// requester.
pub proof fn delivery_keeps_hours(state: StateView, d: Delivery)
    requires
        hours_kept(state.tables.allocations),
    ensures
        hours_kept(after(state, d).tables.allocations),
{
    let view = state.tables;
    if let Ok(done) = delivered(state, d) {
        if done.changes.len() > 0 {
            let (response, changes) = execution(
                view,
                d.user,
                d.id,
                d.request,
                d.now,
                d.fresh,
            )->Ok_0;
            handed_out(state, d);
            let charges = crate::relay::deliver::with_charges(changes, d.user, d.request);
            if done.changes != changes {
                assert(done.changes.drop_last() =~= charges);
            }
            if forall|i: int| 0 <= i < changes.len() ==> (#[trigger] changes[i]) !is Allocation {
                without_allocation(view, done.changes);
            } else {
                let recipient = d.request->ReserveKeyPackage_recipient;
                let taken = changes[0];
                let row = AllocationRowView { requester: d.user, recipient, allocated_at: d.now };
                assert(changes.drop_last() =~= seq![taken]);
                without_allocation(view, seq![taken]);
                assert(all_applied(view, changes).allocations == view.allocations.push(row));
                if done.changes != changes {
                    assert(charges.drop_last() =~= changes);
                    assert(all_applied(view, charges).allocations == view.allocations.push(row));
                    assert(all_applied(view, done.changes).allocations == view.allocations.push(
                        row,
                    ));
                }
                one_more_keeps_hours(view.allocations, row);
            }
        }
    }
}

/// The relay after a run of deliveries.
pub open spec fn after_all(state: StateView, run: Seq<Delivery>) -> StateView
    decreases run.len(),
{
    if run.len() == 0 {
        state
    } else {
        after(after_all(state, run.drop_last()), run.last())
    }
}

/// Over any run of deliveries to a relay that had handed out nothing, whatever its clock
/// says at each: in no 3600 seconds more than 16 packages of a recipient leave, nor
/// more than 4 of them to one requester.
pub proof fn no_run_exceeds_the_hour(
    state: StateView,
    run: Seq<Delivery>,
    recipient: UserId,
    requester: UserId,
    end: int,
)
    requires
        state.tables.allocations.len() == 0,
    ensures
        in_hour(after_all(state, run).tables.allocations, recipient, end) <= 16,
        in_hour_to(after_all(state, run).tables.allocations, recipient, requester, end) <= 4,
{
    run_keeps_hours(state, run);
}

proof fn run_keeps_hours(state: StateView, run: Seq<Delivery>)
    requires
        state.tables.allocations.len() == 0,
    ensures
        hours_kept(after_all(state, run).tables.allocations),
    decreases run.len(),
{
    if run.len() == 0 {
        reveal(Seq::filter);
    } else {
        run_keeps_hours(state, run.drop_last());
        delivery_keeps_hours(after_all(state, run.drop_last()), run.last());
    }
}

/// A refusal for the hour is owed to the hour: a request for a package that the
/// recipient allows, for which there is room, is answered with the recipient's oldest
/// package where one waits and where the last 3600 seconds saw fewer than 16 of the
/// recipient's leave and fewer than 4 of them to this requester.
pub proof fn package_is_owed(state: StateView, d: Delivery, recipient: UserId, at: int)
    requires
        sound(state.tables),
        writes_anew(state, d),
        affordable(state, d),
        d.request == (RequestView::ReserveKeyPackage { recipient }),
        state.tables.grants.contains((recipient, d.user)),
        taken_since(state.tables.allocations, recipient, d.now - 3600) < 16,
        taken_by_since(state.tables.allocations, recipient, d.user, d.now - 3600) < 4,
        oldest_package(state.tables.packages, recipient, at),
    ensures
        answer(state, d) == Ok::<ResponseView, StorageError>(
            ResponseView::KeyPackage { recipient, package: state.tables.packages[at].package },
        ),
        after(state, d).tables.packages == state.tables.packages.remove(at),
        after(state, d).tables.allocations == state.tables.allocations.push(
            AllocationRowView { requester: d.user, recipient, allocated_at: d.now },
        ),
{
    reserving_a_package(state, d, recipient);
}

} // verus!
