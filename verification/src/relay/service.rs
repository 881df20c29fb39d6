//! The relay's state, and how requests change it.
use vstd::prelude::*;
use crate::delivery::AppendView;
use crate::ids::{MessageId, RoomId, UserId};
use crate::relay::deliver::{
    execution, outcome, reads_only, settled, with_charges, Outcome, OutcomeView,
};
use crate::relay::limits::{StorageFacts, StorageLimits};
use crate::relay::metrics::{Metric, Metrics};
use crate::relay::state::RelayTables;
use crate::relay::tables::{
    admitted, all_admitted, all_applied, applied, empty_view, ChangeView, RelayView, StorageError,
};
use crate::relay::writes::{extension, welcoming};
use crate::requests::{Request, RequestView, Response};
use crate::wire::Wire;

verus! {

/// A relay: its tables, its limits and its counters.
pub struct RelayState {
    pub(crate) tables: RelayTables,
    pub(crate) limits: StorageLimits,
    pub(crate) metrics: Metrics,
}

/// What a relay holds.
#[verifier::ext_equal]
pub struct StateView {
    pub tables: RelayView,
    pub limits: StorageLimits,
    pub metrics: Metrics,
}

impl View for RelayState {
    type V = StateView;

    open(crate) spec fn view(&self) -> StateView {
        StateView { tables: self.tables@, limits: self.limits, metrics: self.metrics }
    }
}

/// The state after a delivery with a given outcome: a failure changes nothing.
pub open spec fn after_delivery(
    state: StateView,
    result: Result<OutcomeView, StorageError>,
) -> StateView {
    match result {
        Err(_) => state,
        Ok(outcome) => StateView {
            tables: all_applied(state.tables, outcome.changes),
            limits: state.limits,
            metrics: match outcome.metric {
                Some(metric) => state.metrics.after(metric),
                None => state.metrics,
            },
        },
    }
}

/// Whether a delivery did what it should, with a given fresh identifier at hand.
pub open spec fn is_delivery(
    before: StateView,
    after: StateView,
    result: Result<Response, StorageError>,
    wanted: Result<OutcomeView, StorageError>,
) -> bool {
    &&& after == after_delivery(before, wanted)
    &&& match wanted {
        Ok(outcome) => result matches Ok(response) && response.deep_view() == outcome.response,
        Err(error) => result matches Err(got) && got == error,
    }
}

/// Whether a change is a charge or a kept answer.
pub open spec fn journals(change: ChangeView) -> bool {
    change is SenderUsage || change is RoomUsage || change is Request
}

/// Changes that are no charges and no kept answers leave both as they are.
pub proof fn journal_untouched(view: RelayView, changes: Seq<ChangeView>)
    requires
        forall|i: int| 0 <= i < changes.len() ==> !journals(#[trigger] changes[i]),
    ensures
        all_applied(view, changes).sender_usage == view.sender_usage,
        all_applied(view, changes).room_usage == view.room_usage,
        all_applied(view, changes).requests == view.requests,
    decreases changes.len(),
{
    if changes.len() > 0 {
        let before = changes.drop_last();
        assert forall|i: int| 0 <= i < before.len() implies !journals(#[trigger] before[i]) by {
            assert(before[i] == changes[i]);
        }
        journal_untouched(view, before);
        assert(!journals(changes[changes.len() - 1]));
    }
}

proof fn two_changes(view: RelayView, first: ChangeView, second: ChangeView)
    ensures
        all_admitted(view, seq![first]) == admitted(view, first),
        all_applied(view, seq![first]) == applied(view, first),
        all_admitted(view, seq![first, second]) == (admitted(view, first) && admitted(
            applied(view, first),
            second,
        )),
        all_applied(view, seq![first, second]) == applied(applied(view, first), second),
{
    let none = Seq::<ChangeView>::empty();
    let one = seq![first];
    let two = seq![first, second];
    assert(one.drop_last() =~= none);
    assert(two.drop_last() =~= one);
    assert(all_applied(view, none) == view);
    assert(all_admitted(view, none));
}

proof fn extension_admitted(view: RelayView, user: UserId, id: MessageId, operation: AppendView)
    requires
        extension(view, user, id, operation) is Ok,
    ensures
        all_admitted(view, extension(view, user, id, operation)->Ok_0.1),
        forall|i: int|
            0 <= i < extension(view, user, id, operation)->Ok_0.1.len() ==> !journals(
                #[trigger] extension(view, user, id, operation)->Ok_0.1[i],
            ),
{
    let changes = extension(view, user, id, operation)->Ok_0.1;
    if changes.len() > 0 {
        let more = welcoming(view, user, id, operation)->Ok_0;
        let event = changes[0];
        two_changes(view, event, event);
        assert(admitted(view, event));
        if more.len() == 0 {
            assert(changes =~= seq![event]);
        } else {
            let welcome = more[0];
            let member = more[1];
            let two = seq![event, welcome];
            assert(changes =~= seq![event, welcome, member]);
            two_changes(view, event, welcome);
            assert(changes.drop_last() =~= two);
        }
    }
}

proof fn publication_admitted(view: RelayView, user: UserId, packages: Seq<Seq<u8>>, count: nat)
    requires
        count <= packages.len(),
    ensures
        all_admitted(
            view,
            Seq::new(count, |i: int| ChangeView::Package { user, package: packages[i] }),
        ),
    decreases count,
{
    let changes = Seq::new(count, |i: int| ChangeView::Package { user, package: packages[i] });
    if count > 0 {
        publication_admitted(view, user, packages, (count - 1) as nat);
        assert(changes.drop_last() =~= Seq::new(
            (count - 1) as nat,
            |i: int| ChangeView::Package { user, package: packages[i] },
        ));
    }
}

/// The tables can take what a request does on its own.
pub proof fn execution_admitted(
    view: RelayView,
    user: UserId,
    id: MessageId,
    request: RequestView,
    now: i64,
    fresh: Option<RoomId>,
)
    requires
        execution(view, user, id, request, now, fresh) is Ok,
    ensures
        all_admitted(view, execution(view, user, id, request, now, fresh)->Ok_0.1),
        forall|i: int|
            0 <= i < execution(view, user, id, request, now, fresh)->Ok_0.1.len() ==> !journals(
                #[trigger] execution(view, user, id, request, now, fresh)->Ok_0.1[i],
            ),
{
    let changes = execution(view, user, id, request, now, fresh)->Ok_0.1;
    match request {
        RequestView::AppendRoomOperation(operation) => {
            extension_admitted(view, user, id, operation);
        },
        RequestView::PublishKeyPackages { packages } => {
            publication_admitted(view, user, packages, packages.len());
        },
        RequestView::CreateRoom { .. } | RequestView::ReserveKeyPackage { .. } => {
            if changes.len() > 0 {
                two_changes(view, changes[0], changes[1]);
                assert(changes =~= seq![changes[0], changes[1]]);
            }
        },
        RequestView::SetFetchGrant { .. } => {
            two_changes(view, changes[0], changes[0]);
            assert(changes =~= seq![changes[0]]);
        },
        RequestView::Acknowledge { events, welcomes } => {
            crate::relay::service::confirmed_changes_nothing(view, user, welcomes);
        },
        _ => {},
    }
}

/// Confirming welcomes changes nothing.
pub proof fn confirmed_changes_nothing(view: RelayView, user: UserId, welcomes: Seq<u64>)
    ensures
        crate::relay::reads::welcomes_confirmed(view, user, welcomes) matches Ok((_, changes))
            ==> changes.len() == 0,
    decreases welcomes.len(),
{
    if welcomes.len() > 0 {
        confirmed_changes_nothing(view, user, welcomes.skip(1));
    }
}

/// The tables can take every outcome of a delivery whole.
pub proof fn outcome_admitted(
    view: RelayView,
    limits: StorageLimits,
    facts: StorageFacts,
    user: UserId,
    id: MessageId,
    request: RequestView,
    now: i64,
    fresh: Option<RoomId>,
)
    ensures
        outcome(view, limits, facts, user, id, request, now, fresh) matches Ok(done)
            ==> all_admitted(view, done.changes),
{
    let result = outcome(view, limits, facts, user, id, request, now, fresh);
    if let Ok(done) = result {
        if done.changes.len() > 0 {
            settled_admitted(view, user, id, request, now, fresh);
        }
    }
}

proof fn settled_admitted(
    view: RelayView,
    user: UserId,
    id: MessageId,
    request: RequestView,
    now: i64,
    fresh: Option<RoomId>,
)
    requires
        Request::encoded(request).len() <= crate::delivery::MAX_PAYLOAD,
        !view.requests.contains_key((user, id)),
    ensures
        settled(view, user, id, request, now, fresh) matches Ok(done) ==> all_admitted(
            view,
            done.changes,
        ),
{
    if let Ok(done) = settled(view, user, id, request, now, fresh) {
        let (response, changes) = execution(view, user, id, request, now, fresh)->Ok_0;
        execution_admitted(view, user, id, request, now, fresh);
        journal_untouched(view, changes);
        let charged = with_charges(changes, user, request);
        let bytes = crate::relay::limits::charge(Request::encoded(request).len()) as u64;
        if !(request is Acknowledge && response !is Acknowledged) && !reads_only(request)
            && !crate::relay::deliver::passing(response) {
            let sender = changes.push(ChangeView::SenderUsage { user, bytes });
            assert(sender.drop_last() =~= changes);
            match request {
                RequestView::Acknowledge { .. } => {
                    assert(all_admitted(view, charged));
                },
                RequestView::AppendRoomOperation(operation) => {
                    assert(all_admitted(view, sender));
                    assert(charged.drop_last() =~= sender);
                    assert(all_admitted(view, charged));
                },
                _ => {
                    assert(all_admitted(view, sender));
                    assert(charged == sender);
                },
            }
            assert(done.changes.drop_last() =~= charged);
            assert(all_applied(view, charged).requests == view.requests);
        }
    }
}

impl RelayState {
    /// A relay that holds nothing yet.
    pub fn new(limits: StorageLimits) -> (state: RelayState)
        ensures
            state@.tables == empty_view(),
            state@.limits == limits,
            state@.metrics == (Metrics {
                queue_pressure: 0,
                timeouts: 0,
                quota_rejections: 0,
                commit_conflicts: 0,
                recovery_failures: 0,
            }),
    {
        RelayState { tables: RelayTables::new(), limits, metrics: Metrics::new() }
    }

    /// A relay on tables that were stored.
    pub fn with_tables(tables: RelayTables, limits: StorageLimits) -> (state: RelayState)
        ensures
            state@.tables == tables@,
            state@.limits == limits,
            state@.metrics == (Metrics {
                queue_pressure: 0,
                timeouts: 0,
                quota_rejections: 0,
                commit_conflicts: 0,
                recovery_failures: 0,
            }),
    {
        RelayState { tables, limits, metrics: Metrics::new() }
    }

    /// The tables.
    pub fn tables(&self) -> (tables: &RelayTables)
        ensures
            tables@ == self@.tables,
    {
        &self.tables
    }

    /// The counters.
    pub fn metrics(&self) -> (metrics: Metrics)
        ensures
            metrics == self@.metrics,
    {
        self.metrics
    }

    /// The limits.
    pub fn limits(&self) -> (limits: StorageLimits)
        ensures
            limits == self@.limits,
    {
        self.limits
    }

    /// Puts other limits in force.
    pub fn set_limits(&mut self, limits: StorageLimits)
        ensures
            final(self)@ == (StateView { limits, ..old(self)@ }),
    {
        self.limits = limits;
    }

    /// Counts an event.
    pub fn count(&mut self, metric: Metric)
        ensures
            final(self)@ == (StateView { metrics: old(self)@.metrics.after(metric), ..old(self)@ }),
    {
        self.metrics.count(metric);
    }

    /// What a request is answered, without changing anything yet.
    pub fn plan(
        &self,
        facts: &StorageFacts,
        user: UserId,
        id: MessageId,
        request: &Request,
        now: i64,
        fresh: Option<RoomId>,
    ) -> (result: Result<Outcome, StorageError>)
        ensures
            crate::relay::deliver::is_outcome(
                result,
                outcome(
                    self@.tables,
                    self@.limits,
                    *facts,
                    user,
                    id,
                    request.deep_view(),
                    now,
                    fresh,
                ),
            ),
            result matches Ok(done) ==> all_admitted(self@.tables, done.changes.deep_view()),
    {
        proof {
            outcome_admitted(
                self@.tables,
                self@.limits,
                *facts,
                user,
                id,
                request.deep_view(),
                now,
                fresh,
            );
        }
        self.tables.plan(&self.limits, facts, user, id, request, now, fresh)
    }

    /// Makes the changes of an outcome and counts what it counts. An outcome that
    /// was planned on other tables may not fit: then nothing happens.
    pub fn finish(&mut self, done: Outcome) -> (result: Result<Response, StorageError>)
        ensures
            all_admitted(old(self)@.tables, done.changes.deep_view()) ==> is_delivery(
                old(self)@,
                final(self)@,
                result,
                Ok(done.deep_view()),
            ),
            !all_admitted(old(self)@.tables, done.changes.deep_view()) ==> result == Err::<
                Response,
                StorageError,
            >(StorageError::Database) && final(self)@ == old(self)@,
    {
        let Outcome { response, changes, metric } = done;
        match self.tables.commit(changes) {
            Ok(()) => {},
            Err(error) => return Err(error),
        }
        if let Some(metric) = metric {
            self.metrics.count(metric);
        }
        Ok(response)
    }

    /// Answers a request, with an identifier at hand for a room that it may
    /// create.
    pub fn deliver_with(
        &mut self,
        facts: &StorageFacts,
        user: UserId,
        id: MessageId,
        request: &Request,
        now: i64,
        fresh: Option<RoomId>,
    ) -> (result: Result<Response, StorageError>)
        ensures
            is_delivery(
                old(self)@,
                final(self)@,
                result,
                outcome(
                    old(self)@.tables,
                    old(self)@.limits,
                    *facts,
                    user,
                    id,
                    request.deep_view(),
                    now,
                    fresh,
                ),
            ),
    {
        match self.plan(facts, user, id, request, now, fresh) {
            Ok(done) => self.finish(done),
            Err(error) => Err(error),
        }
    }

    /// Answers a request. A room that it creates gets a random identifier.
    pub fn deliver(
        &mut self,
        facts: &StorageFacts,
        user: UserId,
        id: MessageId,
        request: &Request,
        now: i64,
    ) -> (result: Result<Response, StorageError>)
        ensures
            exists|fresh: Option<RoomId>|
                is_delivery(
                    old(self)@,
                    final(self)@,
                    result,
                    #[trigger] outcome(
                        old(self)@.tables,
                        old(self)@.limits,
                        *facts,
                        user,
                        id,
                        request.deep_view(),
                        now,
                        fresh,
                    ),
                ),
    {
        let fresh = if matches!(request, Request::CreateRoom { .. }) {
            match RoomId::new() {
                Ok(room) => Some(room),
                Err(_) => None,
            }
        } else {
            None
        };
        self.deliver_with(facts, user, id, request, now, fresh)
    }
}

} // verus!
