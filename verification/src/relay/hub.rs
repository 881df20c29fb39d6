//! Who is connected, who is told that there is something new, and who waits at
//! the door.
use vstd::prelude::*;
use vstd::multiset::Multiset;
use crate::ids::UserId;
use crate::relay::limits::RuntimeLimits;
use crate::table::{Key, KeySet};

verus! {

/// How many messages may wait for one connection.
pub const OUTBOUND_CHANNEL_CAPACITY: usize = 64;

/// How many frames of one connection may wait to be answered.
pub const INBOUND_CHANNEL_CAPACITY: usize = 32;

/// The working memory that one request may take, in bytes.
pub const PAYLOAD_LEASE: u32 = 2 * 1024 * 1024;

/// The connections and the users who are in.
pub struct ConnectionHub {
    active: KeySet<UserId>,
    connections: Vec<(UserId, u64)>,
    next: u64,
}

/// What a [`ConnectionHub`] holds.
#[verifier::ext_equal]
pub struct HubView {
    /// The users who are in, until their session is torn down.
    pub active: Set<UserId>,
    /// The connections that are told of news, in the order of their coming.
    pub connections: Seq<(UserId, u64)>,
    /// The number of the next connection.
    pub next: u64,
}

impl View for ConnectionHub {
    type V = HubView;

    closed spec fn view(&self) -> HubView {
        HubView { active: self.active@, connections: self.connections@, next: self.next }
    }
}

/// Whether a connection is another than the one that is gone.
pub open spec fn stays(gone: (UserId, u64)) -> spec_fn((UserId, u64)) -> bool {
    |connection: (UserId, u64)| connection != gone
}

/// Whether a connection is a user's.
pub open spec fn theirs(user: UserId) -> spec_fn((UserId, u64)) -> bool {
    |connection: (UserId, u64)| connection.0 == user
}

/// The connections without one.
pub open spec fn without(connections: Seq<(UserId, u64)>, gone: (UserId, u64)) -> Seq<
    (UserId, u64),
> {
    connections.filter(stays(gone))
}

/// The connections of a user.
pub open spec fn connections_of(connections: Seq<(UserId, u64)>, user: UserId) -> Seq<
    (UserId, u64),
> {
    connections.filter(theirs(user))
}

/// The connections of some users, one user after the other.
pub open spec fn targets_of(connections: Seq<(UserId, u64)>, recipients: Seq<UserId>) -> Seq<
    (UserId, u64),
>
    decreases recipients.len(),
{
    if recipients.len() == 0 {
        Seq::empty()
    } else {
        targets_of(connections, recipients.drop_last()) + connections_of(
            connections,
            recipients.last(),
        )
    }
}

/// The connections without some.
pub open spec fn without_all(
    connections: Seq<(UserId, u64)>,
    gone: Seq<(UserId, u64)>,
) -> Seq<(UserId, u64)>
    decreases gone.len(),
{
    if gone.len() == 0 {
        connections
    } else {
        without(without_all(connections, gone.drop_last()), gone.last())
    }
}

/// What to do with a connection that should be told something.
#[derive(Clone, Copy, Debug, PartialEq, Eq, Structural)]
pub enum Verdict {
    /// News are on their way already.
    Skip,
    /// It does not keep up, or is gone: it is no longer told, and recovers when
    /// it connects again.
    Evict,
    Send,
}

/// The verdict on a connection with room for `capacity` of `max` messages.
pub open spec fn verdict(news: bool, capacity: nat, max: nat, closed: bool) -> Verdict {
    if closed || capacity == 0 {
        Verdict::Evict
    } else if news && capacity < max {
        Verdict::Skip
    } else {
        Verdict::Send
    }
}

/// Judges a connection.
pub fn judge(news: bool, capacity: usize, max: usize, closed: bool) -> (result: Verdict)
    ensures
        result == verdict(news, capacity as nat, max as nat, closed),
{
    if closed || capacity == 0 {
        Verdict::Evict
    } else if news && capacity < max {
        Verdict::Skip
    } else {
        Verdict::Send
    }
}

/// A connection that should be told something, with the state of its queue: room
/// for `capacity` of `max` messages.
#[derive(Clone, Copy, Debug)]
pub struct Target {
    pub connection: (UserId, u64),
    pub capacity: usize,
    pub max: usize,
    pub closed: bool,
}

impl Target {
    /// The verdict on the connection.
    pub open spec fn verdict(self, news: bool) -> Verdict {
        verdict(news, self.capacity as nat, self.max as nat, self.closed)
    }

    /// Whether the connection cannot take a message.
    pub open spec fn lost(self) -> bool {
        self.closed || self.capacity == 0
    }
}

/// The connections on which the verdict is a given one, in their order.
pub open spec fn judged(targets: Seq<Target>, news: bool, meant: Verdict) -> Seq<(UserId, u64)>
    decreases targets.len(),
{
    if targets.len() == 0 {
        Seq::empty()
    } else if targets.last().verdict(news) == meant {
        judged(targets.drop_last(), news, meant).push(targets.last().connection)
    } else {
        judged(targets.drop_last(), news, meant)
    }
}

/// Whom to send a message, and whom to evict.
pub fn judge_all(targets: &Vec<Target>, news: bool) -> (lists: (
    Vec<(UserId, u64)>,
    Vec<(UserId, u64)>,
))
    ensures
        lists.0@ == judged(targets@, news, Verdict::Send),
        lists.1@ == judged(targets@, news, Verdict::Evict),
{
    let mut send: Vec<(UserId, u64)> = Vec::new();
    let mut evict: Vec<(UserId, u64)> = Vec::new();
    let mut at: usize = 0;
    assert(targets@.take(0) =~= Seq::<Target>::empty());
    while at < targets.len()
        invariant
            at <= targets@.len(),
            send@ == judged(targets@.take(at as int), news, Verdict::Send),
            evict@ == judged(targets@.take(at as int), news, Verdict::Evict),
        decreases targets.len() - at,
    {
        let target = targets[at];
        assert(targets@.take(at + 1).drop_last() =~= targets@.take(at as int));
        match judge(news, target.capacity, target.max, target.closed) {
            Verdict::Send => send.push(target.connection),
            Verdict::Evict => evict.push(target.connection),
            Verdict::Skip => {},
        }
        at += 1;
    }
    assert(targets@.take(at as int) =~= targets@);
    (send, evict)
}

/// The number that a user's connection gets, unless they are in.
pub open spec fn registration(hub: HubView, user: UserId) -> Option<u64> {
    if hub.active.contains(user) {
        None
    } else {
        Some(hub.next)
    }
}

/// The hub after a user asked to be let in.
pub open spec fn registered(hub: HubView, user: UserId) -> HubView {
    if hub.active.contains(user) {
        hub
    } else {
        HubView {
            active: hub.active.insert(user),
            connections: hub.connections.push((user, hub.next)),
            next: if hub.next == u64::MAX {
                0
            } else {
                (hub.next + 1) as u64
            },
        }
    }
}

/// The hub without some connections. Their users stay in.
pub open spec fn evicted(hub: HubView, failed: Seq<(UserId, u64)>) -> HubView {
    HubView { connections: without_all(hub.connections, failed), ..hub }
}

/// The hub without a connection. Its user stays in.
pub open spec fn unregistered(hub: HubView, user: UserId, id: u64) -> HubView {
    HubView { connections: without(hub.connections, (user, id)), ..hub }
}

/// The hub after the end of a session.
pub open spec fn released(hub: HubView, user: UserId, id: u64) -> HubView {
    HubView {
        active: hub.active.remove(user),
        connections: without(hub.connections, (user, id)),
        next: hub.next,
    }
}

fn same_connection(left: &(UserId, u64), right: &(UserId, u64)) -> (same: bool)
    ensures
        same == (*left == *right),
{
    left.0.same(&right.0) && left.1 == right.1
}

impl ConnectionHub {
    /// Nobody is in.
    pub fn new() -> (hub: ConnectionHub)
        ensures
            hub@ == (HubView { active: Set::empty(), connections: Seq::empty(), next: 0 }),
    {
        let hub = ConnectionHub { active: KeySet::new(), connections: Vec::new(), next: 0 };
        assert(hub@ =~= (HubView { active: Set::empty(), connections: Seq::empty(), next: 0 }));
        hub
    }

    /// Lets a user in, unless they are in already. The result is the number of
    /// their connection.
    pub fn register(&mut self, user: UserId) -> (result: Option<u64>)
        ensures
            result == registration(old(self)@, user),
            final(self)@ == registered(old(self)@, user),
    {
        if self.active.contains(&user) {
            return None;
        }
        let id = self.next;
        self.active.insert(user);
        self.connections.push((user, id));
        self.next = id.wrapping_add(1);
        Some(id)
    }

    /// No longer tells a connection of news. Its user stays in.
    pub fn unregister(&mut self, user: UserId, id: u64)
        ensures
            final(self)@ == unregistered(old(self)@, user, id),
    {
        let gone = (user, id);
        let ghost all = self.connections@;
        let mut kept: Vec<(UserId, u64)> = Vec::new();
        let mut at: usize = 0;
        proof {
            reveal(Seq::filter);
            assert(all.take(0) =~= Seq::<(UserId, u64)>::empty());
            assert(all.take(0).filter(stays(gone)) =~= Seq::<(UserId, u64)>::empty());
        }
        while at < self.connections.len()
            invariant
                at <= self.connections@.len(),
                all == self.connections@,
                self@ == old(self)@,
                gone == (user, id),
                kept@ == all.take(at as int).filter(stays(gone)),
            decreases self.connections.len() - at,
        {
            proof {
                reveal(Seq::filter);
                assert(all.take(at + 1).drop_last() =~= all.take(at as int));
                assert(all.take(at + 1).last() == all[at as int]);
            }
            if !same_connection(&self.connections[at], &gone) {
                kept.push((self.connections[at].0, self.connections[at].1));
            }
            at += 1;
        }
        assert(all.take(at as int) =~= all);
        self.connections = kept;
    }

    /// Tears down a session: its connection is gone and its user is out.
    pub fn release(&mut self, user: UserId, id: u64)
        ensures
            final(self)@ == released(old(self)@, user, id),
    {
        self.unregister(user, id);
        self.active.remove(&user);
    }

    fn push_connections_of(&self, user: UserId, targets: &mut Vec<(UserId, u64)>)
        ensures
            final(targets)@ == old(targets)@ + connections_of(self@.connections, user),
    {
        let ghost all = self.connections@;
        let ghost before = targets@;
        let mut at: usize = 0;
        proof {
            reveal(Seq::filter);
            assert(all.take(0) =~= Seq::<(UserId, u64)>::empty());
            assert(before + all.take(0).filter(theirs(user)) =~= before);
        }
        while at < self.connections.len()
            invariant
                at <= self.connections@.len(),
                all == self.connections@,
                targets@ == before + all.take(at as int).filter(theirs(user)),
            decreases self.connections.len() - at,
        {
            proof {
                reveal(Seq::filter);
                assert(all.take(at + 1).drop_last() =~= all.take(at as int));
                assert(all.take(at + 1).last() == all[at as int]);
            }
            if self.connections[at].0.same(&user) {
                let ghost written = targets@;
                targets.push((self.connections[at].0, self.connections[at].1));
                assert(targets@ =~= before + all.take(at as int).filter(theirs(user)).push(
                    all[at as int],
                ));
            }
            at += 1;
        }
        assert(all.take(at as int) =~= all);
    }

    /// The connections of some users.
    pub fn targets(&self, recipients: &Vec<UserId>) -> (targets: Vec<(UserId, u64)>)
        ensures
            targets@ == targets_of(self@.connections, recipients@),
    {
        let mut targets: Vec<(UserId, u64)> = Vec::new();
        let mut at: usize = 0;
        assert(recipients@.take(0) =~= Seq::<UserId>::empty());
        while at < recipients.len()
            invariant
                at <= recipients@.len(),
                targets@ == targets_of(self@.connections, recipients@.take(at as int)),
            decreases recipients.len() - at,
        {
            assert(recipients@.take(at + 1).drop_last() =~= recipients@.take(at as int));
            self.push_connections_of(recipients[at], &mut targets);
            at += 1;
        }
        assert(recipients@.take(at as int) =~= recipients@);
        targets
    }

    /// No longer tells connections that do not keep up.
    pub fn evict(&mut self, failed: &Vec<(UserId, u64)>)
        ensures
            final(self)@ == evicted(old(self)@, failed@),
    {
        let mut at: usize = 0;
        assert(failed@.take(0) =~= Seq::<(UserId, u64)>::empty());
        while at < failed.len()
            invariant
                at <= failed@.len(),
                self@ == (HubView {
                    connections: without_all(old(self)@.connections, failed@.take(at as int)),
                    ..old(self)@
                }),
            decreases failed.len() - at,
        {
            assert(failed@.take(at + 1).drop_last() =~= failed@.take(at as int));
            self.unregister(failed[at].0, failed[at].1);
            at += 1;
        }
        assert(failed@.take(at as int) =~= failed@);
    }

    /// Whether a user is in.
    pub fn is_active(&self, user: UserId) -> (yes: bool)
        ensures
            yes == self@.active.contains(user),
    {
        self.active.contains(&user)
    }
}

/// What happens to a hub.
pub enum HubStep {
    Register { user: UserId },
    Unregister { user: UserId, id: u64 },
    Evict { failed: Seq<(UserId, u64)> },
    Release { user: UserId, id: u64 },
}

/// A hub with what it handed out so far.
#[verifier::ext_equal]
pub struct HubRun {
    pub hub: HubView,
    /// The registrations whose sessions have not ended.
    pub live: Set<(UserId, u64)>,
    /// The numbers of all connections there ever were, in their order.
    pub given: Seq<u64>,
}

/// A run after one more step.
pub open spec fn after_step(run: HubRun, step: HubStep) -> HubRun {
    match step {
        HubStep::Register { user } => match registration(run.hub, user) {
            None => HubRun { hub: registered(run.hub, user), ..run },
            Some(id) => HubRun {
                hub: registered(run.hub, user),
                live: run.live.insert((user, id)),
                given: run.given.push(id),
            },
        },
        HubStep::Unregister { user, id } => HubRun { hub: unregistered(run.hub, user, id), ..run },
        HubStep::Evict { failed } => HubRun { hub: evicted(run.hub, failed), ..run },
        HubStep::Release { user, id } => HubRun {
            hub: released(run.hub, user, id),
            live: run.live.remove((user, id)),
            ..run
        },
    }
}

/// A hub from its beginning, after some steps.
pub open spec fn hub_run(steps: Seq<HubStep>) -> HubRun
    decreases steps.len(),
{
    if steps.len() == 0 {
        HubRun {
            hub: HubView { active: Set::empty(), connections: Seq::empty(), next: 0 },
            live: Set::empty(),
            given: Seq::empty(),
        }
    } else {
        after_step(hub_run(steps.drop_last()), steps.last())
    }
}

/// Whether only sessions end that had begun and had not ended.
pub open spec fn sessions_end_once(steps: Seq<HubStep>) -> bool
    decreases steps.len(),
{
    steps.len() == 0 || (sessions_end_once(steps.drop_last()) && match steps.last() {
        HubStep::Release { user, id } => hub_run(steps.drop_last()).live.contains((user, id)),
        _ => true,
    })
}

/// Whether a session of a user has not ended.
pub open spec fn has_session(live: Set<(UserId, u64)>, user: UserId) -> bool {
    exists|id: u64| #[trigger] live.contains((user, id))
}

/// Whoever is in has one live registration, and nobody else has one; connections
/// are numbered one after the other.
pub open spec fn exclusive(run: HubRun) -> bool {
    &&& forall|user: UserId| #[trigger]
        run.hub.active.contains(user) <==> has_session(run.live, user)
    &&& forall|user: UserId, first: u64, second: u64|
        #![trigger run.live.contains((user, first)), run.live.contains((user, second))]
        run.live.contains((user, first)) && run.live.contains((user, second)) ==> first == second
    &&& forall|i: int|
        0 <= i < run.hub.connections.len() ==> run.live.contains(
            #[trigger] run.hub.connections[i],
        )
    &&& forall|i: int|
        0 <= i < run.given.len() && i <= u64::MAX ==> (#[trigger] run.given[i]) == i
    &&& run.given.len() <= u64::MAX ==> run.hub.next == run.given.len()
}

pub(crate) proof fn without_all_members(connections: Seq<(UserId, u64)>, gone: Seq<(UserId, u64)>)
    ensures
        forall|connection: (UserId, u64)| #[trigger]
            without_all(connections, gone).contains(connection) <==> connections.contains(
                connection,
            ) && !gone.contains(connection),
    decreases gone.len(),
{
    if gone.len() > 0 {
        let before = gone.drop_last();
        without_all_members(connections, before);
        eviction_is_exact(without_all(connections, before), gone.last());
        assert forall|connection: (UserId, u64)| gone.contains(connection) <==> before.contains(
            connection,
        ) || connection == gone.last() by {
            if gone.contains(connection) && connection != gone.last() {
                let i = gone.index_of(connection);
                assert(before[i] == connection);
            }
            if before.contains(connection) {
                let i = before.index_of(connection);
                assert(gone[i] == connection);
            }
            if connection == gone.last() {
                assert(gone[gone.len() - 1] == connection);
            }
        }
    }
}

proof fn step_stays_exclusive(run: HubRun, step: HubStep)
    requires
        exclusive(run),
        step matches HubStep::Release { user, id } ==> run.live.contains((user, id)),
    ensures
        exclusive(after_step(run, step)),
{
    let next = after_step(run, step);
    match step {
        HubStep::Register { user } => {
            if !run.hub.active.contains(user) {
                let id = run.hub.next;
                assert(next.live.contains((user, id)));
                assert forall|other: UserId, first: u64, second: u64|
                    next.live.contains((other, first)) && next.live.contains(
                        (other, second),
                    ) implies first == second by {
                    if other != user {
                        assert(run.live.contains((other, first)));
                        assert(run.live.contains((other, second)));
                    } else {
                        assert(!has_session(run.live, user));
                        assert(!run.live.contains((user, first)));
                        assert(!run.live.contains((user, second)));
                    }
                }
                assert forall|i: int| 0 <= i < next.given.len() && i <= u64::MAX implies (
                #[trigger] next.given[i]) == i by {
                    if i < run.given.len() {
                        assert(run.given[i] == i);
                    }
                }
                assert forall|other: UserId| #[trigger] next.hub.active.contains(other)
                    <==> has_session(next.live, other) by {
                    assert(run.hub.active.contains(other) <==> has_session(run.live, other));
                    if has_session(run.live, other) {
                        let known = choose|known: u64| run.live.contains((other, known));
                        assert(next.live.contains((other, known)));
                    }
                    if has_session(next.live, other) && other != user {
                        let known = choose|known: u64| next.live.contains((other, known));
                        assert(run.live.contains((other, known)));
                    }
                }
                assert forall|i: int| 0 <= i < next.hub.connections.len() implies next.live.contains(
                    #[trigger] next.hub.connections[i],
                ) by {
                    if i < run.hub.connections.len() {
                        assert(run.live.contains(run.hub.connections[i]));
                    }
                }
            }
        },
        HubStep::Unregister { user, id } => {
            eviction_is_exact(run.hub.connections, (user, id));
            kept_are_live(run, next.hub.connections);
        },
        HubStep::Evict { failed } => {
            without_all_members(run.hub.connections, failed);
            kept_are_live(run, next.hub.connections);
        },
        HubStep::Release { user, id } => {
            eviction_is_exact(run.hub.connections, (user, id));
            kept_are_live(run, next.hub.connections);
            assert forall|other: UserId| #[trigger] next.hub.active.contains(other)
                <==> has_session(next.live, other) by {
                assert(run.hub.active.contains(other) <==> has_session(run.live, other));
                if has_session(run.live, other) && other != user {
                    let known = choose|known: u64| run.live.contains((other, known));
                    assert(next.live.contains((other, known)));
                }
                if has_session(next.live, other) {
                    let known = choose|known: u64| next.live.contains((other, known));
                    assert(run.live.contains((other, known)));
                    assert(run.live.contains((user, id)));
                }
            }
            assert forall|i: int| 0 <= i < next.hub.connections.len() implies next.live.contains(
                #[trigger] next.hub.connections[i],
            ) by {
                assert(next.hub.connections.contains(next.hub.connections[i]));
            }
        },
    }
}

/// Connections that are among a run's are live in it.
proof fn kept_are_live(run: HubRun, kept: Seq<(UserId, u64)>)
    requires
        exclusive(run),
        forall|connection: (UserId, u64)| #[trigger]
            kept.contains(connection) ==> run.hub.connections.contains(connection),
    ensures
        forall|i: int| 0 <= i < kept.len() ==> run.live.contains(#[trigger] kept[i]),
{
    assert forall|i: int| 0 <= i < kept.len() implies run.live.contains(#[trigger] kept[i]) by {
        assert(kept.contains(kept[i]));
        let k = run.hub.connections.index_of(kept[i]);
        assert(run.hub.connections[k] == kept[i]);
    }
}

/// Whatever happened to a hub, a user has at most one session that has not ended,
/// and is in as long as it has not, even when its connection was evicted; only live
/// sessions are told of news.
pub proof fn one_session_per_user(steps: Seq<HubStep>)
    requires
        sessions_end_once(steps),
    ensures
        exclusive(hub_run(steps)),
    decreases steps.len(),
{
    if steps.len() > 0 {
        one_session_per_user(steps.drop_last());
        step_stays_exclusive(hub_run(steps.drop_last()), steps.last());
    }
}

/// After any steps a user is refused exactly while a session of theirs has not
/// ended; else they get a number that no connection ever had.
pub proof fn registration_is_fresh_and_exclusive(steps: Seq<HubStep>, user: UserId)
    requires
        sessions_end_once(steps),
        hub_run(steps).given.len() <= u64::MAX,
    ensures
        registration(hub_run(steps).hub, user) is None <==> has_session(
            hub_run(steps).live,
            user,
        ),
        registration(hub_run(steps).hub, user) matches Some(id) ==> !hub_run(steps).given.contains(
            id,
        ),
        hub_run(steps).given.no_duplicates(),
{
    one_session_per_user(steps);
    let run = hub_run(steps);
    if run.given.contains(run.hub.next) {
        let i = run.given.index_of(run.hub.next);
        assert(run.given[i] == i);
    }
}

pub(crate) proof fn judged_members(targets: Seq<Target>, news: bool, meant: Verdict)
    ensures
        forall|connection: (UserId, u64)| #[trigger]
            judged(targets, news, meant).contains(connection) <==> exists|i: int|
                0 <= i < targets.len() && (#[trigger] targets[i]).connection == connection
                    && targets[i].verdict(news) == meant,
    decreases targets.len(),
{
    if targets.len() > 0 {
        let before = targets.drop_last();
        judged_members(before, news, meant);
        let first = judged(before, news, meant);
        let all = judged(targets, news, meant);
        assert forall|connection: (UserId, u64)| #[trigger] all.contains(
            connection,
        ) <==> exists|i: int|
            0 <= i < targets.len() && (#[trigger] targets[i]).connection == connection
                && targets[i].verdict(news) == meant by {
            let last = targets.last();
            if all.contains(connection) {
                let k = all.index_of(connection);
                if k < first.len() {
                    assert(first[k] == connection);
                    assert(first.contains(connection));
                    let i = choose|i: int|
                        0 <= i < before.len() && (#[trigger] before[i]).connection == connection
                            && before[i].verdict(news) == meant;
                    assert(targets[i] == before[i]);
                } else {
                    assert(targets[targets.len() - 1].connection == connection);
                }
            }
            if exists|i: int|
                0 <= i < targets.len() && (#[trigger] targets[i]).connection == connection
                    && targets[i].verdict(news) == meant {
                let i = choose|i: int|
                    0 <= i < targets.len() && (#[trigger] targets[i]).connection == connection
                        && targets[i].verdict(news) == meant;
                if i < before.len() {
                    assert(before[i].connection == connection);
                    assert(first.contains(connection));
                    let k = first.index_of(connection);
                    assert(all[k] == connection);
                } else {
                    assert(all[all.len() - 1] == connection);
                }
            }
        }
    }
}

proof fn targets_members(connections: Seq<(UserId, u64)>, recipients: Seq<UserId>)
    ensures
        forall|connection: (UserId, u64)| #[trigger]
            targets_of(connections, recipients).contains(connection) ==> recipients.contains(
                connection.0,
            ) && connections.contains(connection),
    decreases recipients.len(),
{
    if recipients.len() > 0 {
        let before = recipients.drop_last();
        targets_members(connections, before);
        crate::sequences::filter_members(connections, theirs(recipients.last()));
        let first = targets_of(connections, before);
        let more = connections_of(connections, recipients.last());
        assert forall|connection: (UserId, u64)| #[trigger] targets_of(
            connections,
            recipients,
        ).contains(connection) implies recipients.contains(connection.0) && connections.contains(
            connection,
        ) by {
            let all = first + more;
            let k = all.index_of(connection);
            if k < first.len() {
                assert(first[k] == connection);
                assert(first.contains(connection));
                let i = before.index_of(connection.0);
                assert(recipients[i] == connection.0);
            } else {
                assert(more[k - first.len()] == connection);
                assert(theirs(recipients.last())(more[k - first.len()]));
                assert(recipients[recipients.len() - 1] == connection.0);
            }
        }
    }
}

/// Telling some users something evicts exactly their connections whose queue is
/// full or closed, whatever they are told; nothing is sent to anybody else.
pub proof fn lost_connections_are_evicted(
    hub: HubView,
    recipients: Seq<UserId>,
    targets: Seq<Target>,
    news: bool,
)
    requires
        targets.len() == targets_of(hub.connections, recipients).len(),
        forall|i: int|
            0 <= i < targets.len() ==> (#[trigger] targets[i]).connection == targets_of(
                hub.connections,
                recipients,
            )[i],
    ensures
        forall|connection: (UserId, u64)| #[trigger]
            evicted(hub, judged(targets, news, Verdict::Evict)).connections.contains(connection)
                <==> hub.connections.contains(connection) && !exists|i: int|
                0 <= i < targets.len() && (#[trigger] targets[i]).connection == connection
                    && targets[i].lost(),
        forall|connection: (UserId, u64)| #[trigger]
            judged(targets, news, Verdict::Send).contains(connection) ==> recipients.contains(
                connection.0,
            ),
        evicted(hub, judged(targets, news, Verdict::Evict)).active == hub.active,
{
    judged_members(targets, news, Verdict::Evict);
    judged_members(targets, news, Verdict::Send);
    without_all_members(hub.connections, judged(targets, news, Verdict::Evict));
    targets_members(hub.connections, recipients);
    let all = targets_of(hub.connections, recipients);
    assert forall|connection: (UserId, u64)| #[trigger] judged(
        targets,
        news,
        Verdict::Send,
    ).contains(connection) implies recipients.contains(connection.0) by {
        let i = choose|i: int|
            0 <= i < targets.len() && (#[trigger] targets[i]).connection == connection;
        assert(all[i] == connection);
        assert(all.contains(connection));
    }
    assert forall|i: int| 0 <= i < targets.len() implies ((#[trigger] targets[i]).verdict(news)
        == Verdict::Evict) == targets[i].lost() by {}
}

/// An evicted connection is no longer told of anything, and every other still is.
pub proof fn eviction_is_exact(connections: Seq<(UserId, u64)>, gone: (UserId, u64))
    ensures
        forall|connection: (UserId, u64)| #[trigger]
            without(connections, gone).contains(connection) <==> connections.contains(connection)
                && connection != gone,
{
    crate::sequences::filter_members(connections, stays(gone));
    assert forall|connection: (UserId, u64)| #[trigger]
        without(connections, gone).contains(connection) <==> connections.contains(connection)
            && connection != gone by {
        let kept = without(connections, gone);
        if kept.contains(connection) {
            let k = choose|k: int| 0 <= k < kept.len() && kept[k] == connection;
            assert(stays(gone)(kept[k]));
        }
        if connections.contains(connection) && connection != gone {
            let i = choose|i: int| 0 <= i < connections.len() && connections[i] == connection;
            assert(without(connections, gone).contains(connections[i]));
        }
    }
}

/// The handshakes that are under way: one entry for each, the address it comes
/// from.
pub struct PendingHandshakes {
    pending: Vec<[u8; 17]>,
}

impl View for PendingHandshakes {
    type V = Multiset<[u8; 17]>;

    closed spec fn view(&self) -> Multiset<[u8; 17]> {
        self.pending@.to_multiset()
    }
}

/// How often an address occurs.
pub open spec fn occurrences(addresses: Seq<[u8; 17]>, address: [u8; 17]) -> nat
    decreases addresses.len(),
{
    if addresses.len() == 0 {
        0
    } else {
        occurrences(addresses.drop_last(), address) + if addresses.last() == address {
            1nat
        } else {
            0nat
        }
    }
}

proof fn occurrences_counted(addresses: Seq<[u8; 17]>, address: [u8; 17])
    ensures
        occurrences(addresses, address) == addresses.to_multiset().count(address),
    decreases addresses.len(),
{
    broadcast use vstd::seq_lib::group_to_multiset_ensures;

    if addresses.len() > 0 {
        occurrences_counted(addresses.drop_last(), address);
        assert(addresses =~= addresses.drop_last().push(addresses.last()));
    }
}

impl PendingHandshakes {
    /// No handshake is under way.
    pub fn new() -> (pending: PendingHandshakes)
        ensures
            pending@ == Multiset::<[u8; 17]>::empty(),
    {
        broadcast use vstd::seq_lib::group_to_multiset_ensures;

        let pending = PendingHandshakes { pending: Vec::new() };
        assert(pending@ =~= Multiset::<[u8; 17]>::empty());
        pending
    }

    fn count(&self, address: &[u8; 17]) -> (count: usize)
        ensures
            count == self@.count(*address),
    {
        let mut count: usize = 0;
        let mut at: usize = 0;
        assert(self.pending@.take(0) =~= Seq::<[u8; 17]>::empty());
        while at < self.pending.len()
            invariant
                count <= at <= self.pending@.len(),
                count == occurrences(self.pending@.take(at as int), *address),
            decreases self.pending.len() - at,
        {
            assert(self.pending@.take(at + 1).drop_last() =~= self.pending@.take(at as int));
            if self.pending[at].same_key(address) {
                count += 1;
            }
            at += 1;
        }
        proof {
            assert(self.pending@.take(at as int) =~= self.pending@);
            occurrences_counted(self.pending@, *address);
        }
        count
    }

    /// Lets a handshake begin, within the limits on all and on one address.
    pub fn acquire(&mut self, address: [u8; 17], limits: &RuntimeLimits) -> (granted: bool)
        ensures
            granted == (old(self)@.len() < limits.handshakes && old(self)@.count(address)
                < limits.handshakes_per_ip),
            final(self)@ == if granted {
                old(self)@.insert(address)
            } else {
                old(self)@
            },
    {
        broadcast use vstd::seq_lib::group_to_multiset_ensures;

        if self.pending.len() >= limits.handshakes || self.count(&address)
            >= limits.handshakes_per_ip {
            return false;
        }
        self.pending.push(address);
        true
    }

    /// A handshake is over.
    pub fn release(&mut self, address: [u8; 17])
        ensures
            final(self)@ == old(self)@.remove(address),
    {
        broadcast use vstd::seq_lib::group_to_multiset_ensures;

        let mut at: usize = 0;
        while at < self.pending.len()
            invariant
                at <= self.pending@.len(),
                self.pending@ == old(self).pending@,
                forall|i: int| 0 <= i < at ==> (#[trigger] self.pending@[i]) != address,
            decreases self.pending.len() - at,
        {
            if self.pending[at].same_key(&address) {
                let ghost before = self.pending@;
                self.pending.remove(at);
                proof {
                    assert(before[at as int] == address);
                    assert(self.pending@ =~= before.remove(at as int));
                    vstd::seq_lib::to_multiset_remove(before, at as int);
                }
                return;
            }
            at += 1;
        }
        proof {
            occurrences_counted(self.pending@, address);
            absent_occurrences(self.pending@, address);
            assert(self@.remove(address) =~= self@);
        }
    }

    /// Whether no handshake is under way.
    pub fn is_empty(&self) -> (empty: bool)
        ensures
            empty == (self@.len() == 0),
    {
        broadcast use vstd::seq_lib::group_to_multiset_ensures;

        self.pending.len() == 0
    }
}

proof fn absent_occurrences(addresses: Seq<[u8; 17]>, address: [u8; 17])
    requires
        forall|i: int| 0 <= i < addresses.len() ==> (#[trigger] addresses[i]) != address,
    ensures
        occurrences(addresses, address) == 0,
    decreases addresses.len(),
{
    if addresses.len() > 0 {
        let before = addresses.drop_last();
        assert forall|i: int| 0 <= i < before.len() implies (#[trigger] before[i]) != address by {
            assert(before[i] == addresses[i]);
        }
        absent_occurrences(before, address);
        assert(addresses[addresses.len() - 1] != address);
    }
}

/// A handshake that is over leaves its place to another.
pub proof fn released_place_is_free(pending: Multiset<[u8; 17]>, address: [u8; 17])
    ensures
        pending.insert(address).remove(address) == pending,
{
    assert(pending.insert(address).remove(address) =~= pending);
}

} // verus!
