use vstd::prelude::*;
use vstd::string::StringExecFns;
use crate::action_store::{
    answering, answers, entry, in_schedule_order, lemma_selection_in_order, errored, first_n, has_id, is_due_unleased, leasable, lease_is_live,
    lease_result, leased, lemma_open_count_update, lemma_position, lemma_selection_answers,
    lemma_selection_distinct, lemma_update_entry, lemma_update_keeps_well_formed, open_count,
    position, selection, settle_result, views, well_formed, Query, Settlement,
};
use crate::config::batch_limit;
use crate::database::{Connection, Database};
use crate::domain_actions::{DomainAction, DomainActionTypes, DomainActionView};
use crate::errors::{DatabaseError, DomainActionError, ErrorCode};
use crate::routing::DomainActionRouter;

verus! {

/// For how many seconds the dispatcher leases an action that it takes on.
pub const LEASE_SECONDS: u32 = 60;

/// After how many seconds the dispatcher stops waiting for an executor. It
/// is less than the lease, so that an action whose execution starts when
/// its lease is taken, and whose executor hangs, is still held when the
/// dispatcher gives up on it, and is free for the next pass only once the
/// lease has run out.
pub const EXECUTION_TIMEOUT_SECONDS: u64 = 55;

/// What is recorded on an action for whose type no executor is registered.
pub open spec fn missing_executor_message() -> Seq<char> {
    "No executor has been created for this action type"@
}

/// Why a dispatch pass takes on no further action.
#[derive(Clone, Copy, Debug, PartialEq, Eq, Structural)]
pub enum Stop {
    /// The pool had no connection left for the next action.
    PoolExhausted,
    /// The store refused a lease for a reason other than a lost race.
    Failed(ErrorCode),
}

/// Where a dispatch pass stands after it has considered some candidates.
pub struct Dispatch {
    /// The contents of the store.
    pub store: Seq<DomainActionView>,
    /// The candidates that were leased and are to be executed, in the order
    /// in which they were taken on.
    pub taken: Seq<DomainActionView>,
    /// The ids of the candidates that another worker holds.
    pub skipped: Seq<u128>,
    /// The candidates that were leased and then marked as failed because no
    /// executor is registered for their type.
    pub unroutable: Seq<DomainActionView>,
    /// Why no further candidate is considered, if that is so.
    pub stopped: Option<Stop>,
}

/// A pass that has considered nothing yet.
pub open spec fn start(store: Seq<DomainActionView>) -> Dispatch {
    Dispatch { store, taken: Seq::empty(), skipped: Seq::empty(), unroutable: Seq::empty(), stopped: None }
}

/// The store once the leased action `id` has been marked as failed for want
/// of an executor.
pub open spec fn marked_unroutable(s: Seq<DomainActionView>, id: u128, now: i64) -> Seq<
    DomainActionView,
> {
    match settle_result(s, id, Settlement::Errored { message: missing_executor_message() }, now) {
        Ok(t) => t,
        Err(_) => s,
    }
}

/// What considering one candidate does to a pass. `routes` are the action
/// types that have an executor, `free` is the number of connections the pool
/// can lend to the actions of this pass.
///
/// A pass that has stopped stays as it is. A pass that finds no connection
/// for the candidate stops. Otherwise the candidate is leased: if another
/// worker holds it, it is skipped; if the store refuses for another reason,
/// the pass stops with that reason; if the lease is granted, the candidate
/// is taken on where its type has an executor, and marked as failed where
/// it has none.
pub open spec fn step(
    d: Dispatch,
    c: DomainActionView,
    routes: Set<DomainActionTypes>,
    free: int,
    now: i64,
) -> Dispatch {
    if d.stopped is Some {
        d
    } else if d.taken.len() >= free {
        Dispatch { stopped: Some(Stop::PoolExhausted), ..d }
    } else {
        match lease_result(d.store, c.id, LEASE_SECONDS, now) {
            Err(ErrorCode::ConcurrencyError) => Dispatch { skipped: d.skipped.push(c.id), ..d },
            Err(code) => Dispatch { stopped: Some(Stop::Failed(code)), ..d },
            Ok(s) => if routes.contains(c.domain_action_type) {
                Dispatch { store: s, taken: d.taken.push(c), ..d }
            } else {
                Dispatch {
                    store: marked_unroutable(s, c.id, now),
                    unroutable: d.unroutable.push(c),
                    ..d
                }
            },
        }
    }
}

/// Where a pass stands after it has considered the candidates one after
/// the other.
pub open spec fn dispatched(
    d: Dispatch,
    candidates: Seq<DomainActionView>,
    routes: Set<DomainActionTypes>,
    free: int,
    now: i64,
) -> Dispatch
    decreases candidates.len(),
{
    if candidates.len() == 0 {
        d
    } else {
        step(
            dispatched(d, candidates.drop_last(), routes, free, now),
            candidates.last(),
            routes,
            free,
            now,
        )
    }
}

/// The error a pass reports: the reason for which the store refused, or
/// else the type of the first action that has no executor, or else none.
pub open spec fn reported_error(d: Dispatch) -> Option<DomainActionError> {
    match d.stopped {
        Some(Stop::Failed(code)) => Some(DomainActionError::Database(DatabaseError { error_code: code })),
        _ => if d.unroutable.len() > 0 {
            Some(DomainActionError::Configuration { action_type: d.unroutable[0].domain_action_type })
        } else {
            None
        },
    }
}

/// The action `id` is held by the lease that a pass at `now` has taken.
pub open spec fn held(s: Seq<DomainActionView>, id: u128, now: i64) -> bool {
    &&& has_id(s, id)
    &&& entry(s, id).status is Busy
    &&& entry(s, id).busy_until == Some((now + LEASE_SECONDS) as i64)
}

/// No two of the actions share an id.
pub open spec fn all_different(actions: Seq<DomainActionView>) -> bool {
    forall|i: int, j: int| 0 <= i < j < actions.len() ==> (#[trigger] actions[i]).id != (#[trigger] actions[j]).id
}

/// The actions of a list of assignments.
pub open spec fn assigned<E>(
    assignments: Seq<(&E, DomainAction, Connection)>,
) -> Seq<DomainActionView> {
    assignments.map_values(|a: (&E, DomainAction, Connection)| a.1@)
}

/// What a dispatcher has to carry out after it has considered its
/// candidates.
pub struct Batch<'a, E> {
    /// For each action that was taken on: its executor, the action, and the
    /// connection that is the executor's own, with a transaction begun.
    pub assignments: Vec<(&'a E, DomainAction, Connection)>,
    /// The ids of the candidates that another worker holds.
    pub skipped: Vec<u128>,
    /// The candidates that were marked as failed because no executor is
    /// registered for their type.
    pub unroutable: Vec<DomainAction>,
    /// Why the pass took on no further action, if that is so.
    pub stopped: Option<Stop>,
    /// How many candidates the pass was given to consider.
    pub found: usize,
}

impl<'a, E> Batch<'a, E> {
    /// The batch is what a pass that stands at `d` hands out. A pass that
    /// the store has failed hands out no assignment.
    pub open spec fn is_outcome_of(&self, d: Dispatch, routes: Map<DomainActionTypes, E>) -> bool {
        &&& self.stopped == d.stopped
        &&& self.skipped@ == d.skipped
        &&& views(self.unroutable@) == d.unroutable
        &&& if d.stopped matches Some(Stop::Failed(_)) {
            self.assignments@.len() == 0
        } else {
            &&& assigned(self.assignments@) == d.taken
            &&& forall|k: int|
                0 <= k < self.assignments@.len() ==> {
                    let a = #[trigger] self.assignments@[k];
                    &&& routes.contains_key(a.1@.domain_action_type)
                    &&& *a.0 == routes[a.1@.domain_action_type]
                    &&& a.2.in_transaction()
                }
        }
    }

    /// The error the pass reports, if any: see `reported_error`.
    pub fn error(&self) -> (e: Option<DomainActionError>)
        ensures
            e == match self.stopped {
                Some(Stop::Failed(code)) => Some(
                    DomainActionError::Database(DatabaseError { error_code: code }),
                ),
                _ => if self.unroutable@.len() > 0 {
                    Some(
                        DomainActionError::Configuration {
                            action_type: self.unroutable@[0]@.domain_action_type,
                        },
                    )
                } else {
                    None
                },
            },
    {
        match self.stopped {
            Some(Stop::Failed(code)) => Some(DomainActionError::Database(DatabaseError::new(code))),
            _ => {
                if self.unroutable.len() > 0 {
                    Some(
                        DomainActionError::Configuration {
                            action_type: self.unroutable[0].domain_action_type,
                        },
                    )
                } else {
                    None
                }
            },
        }
    }
}

/// What a pass leaves behind, whatever candidates it was given: the store
/// stays well formed; every action it has taken on is held by its lease, and
/// no two of them are the same action; and every lease it was granted has
/// taken one action out of those that are open to a lease.
pub open spec fn sound(d: Dispatch, before: Seq<DomainActionView>, now: i64) -> bool {
    &&& well_formed(d.store)
    &&& d.store.len() == before.len()
    &&& forall|k: int| 0 <= k < d.taken.len() ==> held(d.store, (#[trigger] d.taken[k]).id, now)
    &&& all_different(d.taken)
    &&& open_count(d.store, now) + d.taken.len() + d.unroutable.len() == open_count(before, now)
}

/// One step keeps a pass sound.
pub proof fn lemma_step_is_sound(
    d: Dispatch,
    c: DomainActionView,
    routes: Set<DomainActionTypes>,
    free: int,
    now: i64,
    before: Seq<DomainActionView>,
)
    requires
        sound(d, before, now),
        now + LEASE_SECONDS <= i64::MAX,
    ensures
        sound(step(d, c, routes, free, now), before, now),
{
    let e = step(d, c, routes, free, now);
    if d.stopped is None && d.taken.len() < free {
        let leased_store = lease_result(d.store, c.id, LEASE_SECONDS, now);
        if leased_store is Ok {
            let s = d.store;
            let i = position(s, c.id);
            let until = (now + LEASE_SECONDS) as i64;
            let a = leased(s[i], until, now);
            let t = leased_store.unwrap();
            assert(t == s.update(i, a));
            lemma_update_keeps_well_formed(s, i, a);
            lemma_update_entry(s, i, a);
            lemma_open_count_update(s, i, a, now);
            assert(leasable(s[i], now));
            assert(entry(t, c.id) == a);
            assert forall|k: int| 0 <= k < d.taken.len() implies held(t, (#[trigger] d.taken[k]).id, now)
                && d.taken[k].id != c.id by {
                assert(held(s, d.taken[k].id, now));
                assert(lease_is_live(entry(s, d.taken[k].id), now));
            }
            if routes.contains(c.domain_action_type) {
                assert(e.store == t);
                assert(e.taken == d.taken.push(c));
                assert forall|k: int| 0 <= k < e.taken.len() implies held(
                    e.store,
                    (#[trigger] e.taken[k]).id,
                    now,
                ) by {
                    if k < d.taken.len() {
                        assert(e.taken[k] == d.taken[k]);
                    }
                }
                assert forall|x: int, y: int| 0 <= x < y < e.taken.len() implies (#[trigger] e.taken[x]).id
                    != (#[trigger] e.taken[y]).id by {
                    if y < d.taken.len() {
                        assert(d.taken[x].id != d.taken[y].id);
                    } else {
                        assert(e.taken[x] == d.taken[x]);
                    }
                }
            } else {
                let message = missing_executor_message();
                let j = position(t, c.id);
                lemma_position(t, i);
                assert(j == i);
                let b = errored(t[i], message, now);
                let u = marked_unroutable(t, c.id, now);
                assert(u == t.update(i, b));
                lemma_update_keeps_well_formed(t, i, b);
                lemma_update_entry(t, i, b);
                lemma_open_count_update(t, i, b, now);
                assert(e.store == u);
                assert forall|k: int| 0 <= k < e.taken.len() implies held(
                    e.store,
                    (#[trigger] e.taken[k]).id,
                    now,
                ) by {
                    assert(held(t, d.taken[k].id, now));
                }
            }
        }
    }
}

/// A pass is sound after any number of steps.
pub proof fn lemma_dispatch_is_sound(
    before: Seq<DomainActionView>,
    candidates: Seq<DomainActionView>,
    routes: Set<DomainActionTypes>,
    free: int,
    now: i64,
)
    requires
        well_formed(before),
        now + LEASE_SECONDS <= i64::MAX,
    ensures
        sound(dispatched(start(before), candidates, routes, free, now), before, now),
    decreases candidates.len(),
{
    if candidates.len() > 0 {
        lemma_dispatch_is_sound(before, candidates.drop_last(), routes, free, now);
        lemma_step_is_sound(
            dispatched(start(before), candidates.drop_last(), routes, free, now),
            candidates.last(),
            routes,
            free,
            now,
            before,
        );
    }
}

/// A step never takes back what a pass has taken on, and changes the store
/// only where it takes an action on or marks it as failed.
pub proof fn lemma_pass_only_grows(
    d: Dispatch,
    candidates: Seq<DomainActionView>,
    routes: Set<DomainActionTypes>,
    free: int,
    now: i64,
)
    ensures
        ({
            let e = dispatched(d, candidates, routes, free, now);
            &&& e.taken.len() >= d.taken.len()
            &&& e.unroutable.len() >= d.unroutable.len()
            &&& (e.taken.len() == d.taken.len() && e.unroutable.len() == d.unroutable.len()
                ==> e.store == d.store)
        }),
    decreases candidates.len(),
{
    if candidates.len() > 0 {
        lemma_pass_only_grows(d, candidates.drop_last(), routes, free, now);
    }
}

/// A pass that has a connection to lend takes on the first of its
/// candidates, or marks it as failed, if the store holds the candidate and
/// no worker holds it.
pub proof fn lemma_first_candidate_is_served(
    s: Seq<DomainActionView>,
    candidates: Seq<DomainActionView>,
    routes: Set<DomainActionTypes>,
    free: int,
    now: i64,
)
    requires
        candidates.len() > 0,
        free > 0,
        has_id(s, candidates[0].id),
        leasable(entry(s, candidates[0].id), now),
    ensures
        ({
            let e = dispatched(start(s), candidates, routes, free, now);
            e.taken.len() + e.unroutable.len() >= 1
        }),
    decreases candidates.len(),
{
    let rest = candidates.drop_last();
    if candidates.len() == 1 {
        assert(rest.len() == 0);
        assert(dispatched(start(s), rest, routes, free, now) == start(s));
        assert(candidates.last() == candidates[0]);
        assert(lease_result(s, candidates[0].id, LEASE_SECONDS, now) is Ok);
    } else {
        assert(rest[0] == candidates[0]);
        lemma_first_candidate_is_served(s, rest, routes, free, now);
        let d = dispatched(start(s), rest, routes, free, now);
        assert(dispatched(start(s), candidates, routes, free, now) == step(
            d,
            candidates.last(),
            routes,
            free,
            now,
        ));
        lemma_pass_only_grows(d, seq![candidates.last()], routes, free, now);
        assert(seq![candidates.last()].drop_last() =~= Seq::<DomainActionView>::empty());
        assert(dispatched(d, seq![candidates.last()], routes, free, now) == step(
            dispatched(d, seq![candidates.last()].drop_last(), routes, free, now),
            seq![candidates.last()].last(),
            routes,
            free,
            now,
        ));
    }
}

/// A pass that polls a well-formed store and has a connection to lend
/// serves at least one action unless none is due and free.
pub proof fn lemma_idle_pass_means_nothing_due(
    s: Seq<DomainActionView>,
    limit: usize,
    routes: Set<DomainActionTypes>,
    free: int,
    now: i64,
)
    requires
        well_formed(s),
        limit >= 1,
        free > 0,
        ({
            let e = dispatched(
                start(s),
                selection(s, Query::DueUnleased { now }, Some(limit)),
                routes,
                free,
                now,
            );
            e.taken.len() + e.unroutable.len() == 0
        }),
    ensures
        forall|k: int| 0 <= k < s.len() ==> !is_due_unleased(#[trigger] s[k], now),
{
    let q = Query::DueUnleased { now };
    let due = selection(s, q, Some(limit));
    lemma_selection_answers(s, q, Some(limit));
    if due.len() > 0 {
        let c = due[0];
        assert(answers(q, c) && s.contains(c));
        let k = choose|k: int| 0 <= k < s.len() && s[k] == c;
        lemma_position(s, k);
        lemma_first_candidate_is_served(s, due, routes, free, now);
    }
    assert forall|k: int| 0 <= k < s.len() implies !is_due_unleased(#[trigger] s[k], now) by {
        if is_due_unleased(s[k], now) {
            assert(answering(q)(s[k]));
            s.lemma_filter_contains(answering(q), k);
            assert(s.filter(answering(q)).len() > 0);
        }
    }
}

/// Considers the candidates one after the other, no more than `limit` of
/// them: leases each, finds its executor and hands out what is to be
/// executed. Candidates that another worker holds are skipped. A candidate
/// whose type has no executor is marked as failed, and the pass goes on.
/// When the pool has no connection left the pass takes on nothing more.
/// When the store refuses a lease for another reason than a lost race, the
/// pass hands out nothing, and the leases it has taken are left to run out.
pub fn dispatch<'a, E>(
    database: &mut Database,
    router: &'a DomainActionRouter<E>,
    candidates: &Vec<DomainAction>,
    limit: usize,
    now: i64,
) -> (batch: Batch<'a, E>)
    requires
        old(database).wf(),
        router.wf(),
        now + LEASE_SECONDS <= i64::MAX,
    ensures
        final(database).wf(),
        final(database).domain_events == old(database).domain_events,
        final(database).connection_pool.capacity() == old(database).connection_pool.capacity(),
        ({
            let d = dispatched(
                start(old(database).actions@),
                first_n(views(candidates@), Some(limit)),
                router@.dom(),
                old(database).connection_pool.capacity() - old(database).connection_pool.in_use(),
                now,
            );
            &&& final(database).actions@ == d.store
            &&& batch.is_outcome_of(d, router@)
            &&& batch.found == candidates@.len()
            &&& final(database).connection_pool.in_use() == old(database).connection_pool.in_use()
                + batch.assignments@.len()
            &&& sound(d, old(database).actions@, now)
        }),
{
    let ghost before = database.actions@;
    let ghost in_use = database.connection_pool.in_use();
    let ghost capacity = database.connection_pool.capacity();
    let ghost free = capacity - in_use;
    let ghost routes = router@.dom();
    let ghost cs = first_n(views(candidates@), Some(limit));
    let mut assignments: Vec<(&'a E, DomainAction, Connection)> = Vec::new();
    let mut skipped: Vec<u128> = Vec::new();
    let mut unroutable: Vec<DomainAction> = Vec::new();
    let mut stopped: Option<Stop> = None;
    let count = if candidates.len() < limit {
        candidates.len()
    } else {
        limit
    };
    let ghost mut d = start(before);
    let mut i: usize = 0;
    proof {
        assert(cs.take(0) =~= Seq::<DomainActionView>::empty());
        assert(assigned(assignments@) =~= d.taken);
        assert(views(unroutable@) =~= d.unroutable);
    }
    while i < count
        invariant
            i <= count,
            count == cs.len(),
            count <= candidates@.len(),
            forall|k: int| 0 <= k < count ==> cs[k] == (#[trigger] candidates@[k])@,
            router.wf(),
            routes == router@.dom(),
            now + LEASE_SECONDS <= i64::MAX,
            database.wf(),
            database.domain_events == old(database).domain_events,
            database.connection_pool.capacity() == capacity,
            free == capacity - in_use,
            database.connection_pool.in_use() == in_use + assignments@.len(),
            d == dispatched(start(before), cs.take(i as int), routes, free, now),
            database.actions@ == d.store,
            stopped == d.stopped,
            skipped@ == d.skipped,
            views(unroutable@) == d.unroutable,
            assigned(assignments@) == d.taken,
            forall|k: int|
                0 <= k < assignments@.len() ==> {
                    let a = #[trigger] assignments@[k];
                    &&& router@.contains_key(a.1@.domain_action_type)
                    &&& *a.0 == router@[a.1@.domain_action_type]
                    &&& a.2.in_transaction()
                },
        decreases count - i,
    {
        let candidate = candidates[i].clone();
        let ghost c = candidate@;
        proof {
            assert(cs.take(i + 1).drop_last() =~= cs.take(i as int));
            assert(cs.take(i + 1).last() == c);
            assert(dispatched(start(before), cs.take(i + 1), routes, free, now) == step(
                d,
                c,
                routes,
                free,
                now,
            ));
        }
        if stopped.is_none() {
            match database.get_connection() {
                Err(_) => {
                    stopped = Some(Stop::PoolExhausted);
                },
                Ok(connection) => {
                    let mut connection = connection;
                    match database.actions.lease(candidate.id, LEASE_SECONDS, now) {
                        Err(e) => {
                            database.release(connection);
                            match e.error_code {
                                ErrorCode::ConcurrencyError => {
                                    skipped.push(candidate.id);
                                },
                                code => {
                                    stopped = Some(Stop::Failed(code));
                                },
                            }
                        },
                        Ok(()) => {
                            match router.get_executor_for(candidate.domain_action_type) {
                                None => {
                                    let message = String::from_str(
                                        "No executor has been created for this action type",
                                    );
                                    let _ = database.actions.mark_errored(
                                        candidate.id,
                                        message,
                                        now,
                                    );
                                    database.release(connection);
                                    let ghost listed = unroutable@;
                                    unroutable.push(candidate);
                                    proof {
                                        assert(views(unroutable@) =~= views(listed).push(c));
                                    }
                                },
                                Some(executor) => {
                                    connection.begin_transaction();
                                    let ghost listed = assignments@;
                                    assignments.push((executor, candidate, connection));
                                    proof {
                                        assert(assigned(assignments@) =~= assigned(listed).push(c));
                                    }
                                },
                            }
                        },
                    }
                },
            }
        }
        proof {
            d = step(d, c, routes, free, now);
        }
        i += 1;
    }
    proof {
        assert(cs.take(i as int) =~= cs);
        lemma_dispatch_is_sound(before, cs, routes, free, now);
    }
    let failed = match stopped {
        Some(Stop::Failed(_)) => true,
        _ => false,
    };
    if failed {
        while assignments.len() > 0
            invariant
                database.wf(),
                database.domain_events == old(database).domain_events,
                database.connection_pool.capacity() == capacity,
                database.connection_pool.in_use() == in_use + assignments@.len(),
                database.actions@ == d.store,
            decreases assignments@.len(),
        {
            match assignments.pop() {
                Some(assignment) => {
                    database.release(assignment.2);
                },
                None => {},
            }
        }
    }
    Batch { assignments, skipped, unroutable, stopped, found: candidates.len() }
}

/// Where a pass stands after its first stage: the poll of the store for
/// the actions that are due at `now` and that no worker holds, no more than
/// `limit` of them, and their dispatch. The dispatcher takes one connection
/// of the pool for itself; if the pool has none, the pass has failed with
/// `ConnectionError` before it has polled.
pub open spec fn polled(
    store: Seq<DomainActionView>,
    routes: Set<DomainActionTypes>,
    limit: usize,
    capacity: nat,
    in_use: nat,
    now: i64,
) -> Dispatch {
    if in_use >= capacity {
        Dispatch { stopped: Some(Stop::Failed(ErrorCode::ConnectionError)), ..start(store) }
    } else {
        dispatched(
            start(store),
            selection(store, Query::DueUnleased { now }, Some(limit)),
            routes,
            capacity - in_use - 1,
            now,
        )
    }
}

/// How many actions the poll of a pass finds.
pub open spec fn found_by_poll(
    store: Seq<DomainActionView>,
    limit: usize,
    capacity: nat,
    in_use: nat,
    now: i64,
) -> nat {
    if in_use >= capacity {
        0
    } else {
        selection(store, Query::DueUnleased { now }, Some(limit)).len()
    }
}

/// One poll of the store and the dispatch of what it returns: the actions
/// that are due at `now` and that no worker holds, those scheduled earliest
/// first, no more than `limit` of them. The dispatcher needs a connection
/// of its own for the length of the call; if the pool has none, nothing is
/// done and the batch says that the store has failed with
/// `ConnectionError`. That is the only way in which the store fails the
/// pass. An action that is not due, or that a worker holds, is neither
/// leased nor handed out and stays as it is: see `orderly`.
pub fn find_actions<'a, E>(
    database: &mut Database,
    router: &'a DomainActionRouter<E>,
    limit: usize,
    now: i64,
) -> (batch: Batch<'a, E>)
    requires
        old(database).wf(),
        router.wf(),
        now + LEASE_SECONDS <= i64::MAX,
    ensures
        final(database).wf(),
        final(database).domain_events == old(database).domain_events,
        final(database).connection_pool.capacity() == old(database).connection_pool.capacity(),
        final(database).connection_pool.in_use() == old(database).connection_pool.in_use()
            + batch.assignments@.len(),
        ({
            let d = polled(
                old(database).actions@,
                router@.dom(),
                limit,
                old(database).connection_pool.capacity(),
                old(database).connection_pool.in_use(),
                now,
            );
            &&& final(database).actions@ == d.store
            &&& batch.is_outcome_of(d, router@)
            &&& batch.found == found_by_poll(
                old(database).actions@,
                limit,
                old(database).connection_pool.capacity(),
                old(database).connection_pool.in_use(),
                now,
            )
            &&& sound(d, old(database).actions@, now)
            &&& orderly(d, old(database).actions@, now)
            &&& d.stopped matches Some(Stop::Failed(code)) ==> code == ErrorCode::ConnectionError
                && old(database).connection_pool.in_use() >= old(
                database,
            ).connection_pool.capacity()
        }),
{
    proof {
        lemma_poll_is_orderly(
            database.actions@,
            router@.dom(),
            limit,
            database.connection_pool.capacity(),
            database.connection_pool.in_use(),
            now,
        );
    }
    let own = match database.get_connection() {
        Ok(connection) => connection,
        Err(e) => {
            let batch = Batch {
                assignments: Vec::new(),
                skipped: Vec::new(),
                unroutable: Vec::new(),
                stopped: Some(Stop::Failed(e.error_code)),
                found: 0,
            };
            proof {
                assert(views(batch.unroutable@) =~= Seq::<DomainActionView>::empty());
                lemma_dispatch_is_sound(
                    database.actions@,
                    Seq::<DomainActionView>::empty(),
                    router@.dom(),
                    0,
                    now,
                );
            }
            return batch;
        },
    };
    let candidates = database.actions.find_due(Some(limit), now);
    proof {
        let due = selection(database.actions@, Query::DueUnleased { now }, Some(limit));
        lemma_selection_answers(database.actions@, Query::DueUnleased { now }, Some(limit));
        assert(first_n(due, Some(limit)) == due);
    }
    let batch = dispatch(database, router, &candidates, limit, now);
    database.release(own);
    batch
}

/// The candidates are actions of the store, each as the store holds it,
/// due at `now` and held by no worker, and no two of them are the same
/// action: what a poll of the store returns.
pub open spec fn fresh(s: Seq<DomainActionView>, candidates: Seq<DomainActionView>, now: i64) -> bool {
    &&& all_different(candidates)
    &&& forall|k: int|
        0 <= k < candidates.len() ==> {
            let c = #[trigger] candidates[k];
            has_id(s, c.id) && entry(s, c.id) == c && is_due_unleased(c, now)
        }
}

/// One of the actions has the id.
pub open spec fn among(actions: Seq<DomainActionView>, id: u128) -> bool {
    exists|k: int| 0 <= k < actions.len() && (#[trigger] actions[k]).id == id
}

/// The store `t` holds every action of the store `s` that is none of
/// `touched` as `s` holds it.
pub open spec fn same_elsewhere(
    s: Seq<DomainActionView>,
    t: Seq<DomainActionView>,
    touched: Seq<DomainActionView>,
) -> bool {
    forall|id: u128|
        #![trigger has_id(t, id)]
        #![trigger entry(t, id)]
        has_id(s, id) && !among(touched, id) ==> has_id(t, id) && entry(t, id) == entry(s, id)
}

/// What a poll of a well-formed store returns is fresh.
pub proof fn lemma_poll_is_fresh(s: Seq<DomainActionView>, limit: usize, now: i64)
    requires
        well_formed(s),
    ensures
        fresh(s, selection(s, Query::DueUnleased { now }, Some(limit)), now),
{
    let q = Query::DueUnleased { now };
    let due = selection(s, q, Some(limit));
    lemma_selection_answers(s, q, Some(limit));
    lemma_selection_distinct(s, q, Some(limit));
    assert forall|k: int| 0 <= k < due.len() implies {
        let c = #[trigger] due[k];
        has_id(s, c.id) && entry(s, c.id) == c && is_due_unleased(c, now)
    } by {
        let c = due[k];
        assert(answers(q, c) && s.contains(c));
        let i = choose|i: int| 0 <= i < s.len() && s[i] == c;
        lemma_position(s, i);
    }
}

/// What passes at `now` may have made of the action `a`: nothing; or, if
/// `a` was due and held by no worker, they have leased it until
/// `now + LEASE_SECONDS` and left it busy, or recorded it as done or as
/// failed.
pub open spec fn moved_on(a: DomainActionView, b: DomainActionView, now: i64) -> bool {
    b == a || (is_due_unleased(a, now) && b.busy_until == Some((now + LEASE_SECONDS) as i64) && (
    b.status is Busy || b.status is Success || b.status is Errored))
}

/// The store `t` is what passes at `now` may have made of the store `s`: it
/// holds the same actions, each as `s` holds it or moved on.
pub open spec fn carried_on(s: Seq<DomainActionView>, t: Seq<DomainActionView>, now: i64) -> bool {
    forall|id: u128|
        #![trigger has_id(t, id)]
        #![trigger entry(t, id)]
        (has_id(t, id) <==> has_id(s, id)) && (has_id(s, id) ==> moved_on(
            entry(s, id),
            entry(t, id),
            now,
        ))
}

/// An action that passes at `now` have moved on is no longer due and free
/// at `now`, so what passes make of a store, further passes carry on.
pub proof fn lemma_carried_on_is_transitive(
    s: Seq<DomainActionView>,
    t: Seq<DomainActionView>,
    u: Seq<DomainActionView>,
    now: i64,
)
    requires
        carried_on(s, t, now),
        carried_on(t, u, now),
        now + LEASE_SECONDS <= i64::MAX,
    ensures
        carried_on(s, u, now),
{
    assert forall|id: u128|
        #![trigger has_id(u, id)]
        #![trigger entry(u, id)]
        (has_id(u, id) <==> has_id(s, id)) && (has_id(s, id) ==> moved_on(
            entry(s, id),
            entry(u, id),
            now,
        )) by {
        assert(has_id(t, id) <==> has_id(s, id));
        assert(has_id(u, id) <==> has_id(t, id));
        if has_id(s, id) {
            assert(moved_on(entry(s, id), entry(t, id), now));
            assert(moved_on(entry(t, id), entry(u, id), now));
        }
    }
}

/// Every action the pass has taken on or marked as failed is one of the
/// candidates, which the store `s` held due and free; those taken on have
/// an executor, those marked as failed have none.
pub open spec fn drawn_from(
    d: Dispatch,
    s: Seq<DomainActionView>,
    candidates: Seq<DomainActionView>,
    routes: Set<DomainActionTypes>,
    now: i64,
) -> bool {
    &&& forall|k: int|
        0 <= k < d.taken.len() ==> {
            let c = #[trigger] d.taken[k];
            &&& among(candidates, c.id)
            &&& has_id(s, c.id)
            &&& entry(s, c.id) == c
            &&& is_due_unleased(c, now)
            &&& routes.contains(c.domain_action_type)
        }
    &&& forall|k: int|
        0 <= k < d.unroutable.len() ==> {
            let c = #[trigger] d.unroutable[k];
            &&& among(candidates, c.id)
            &&& has_id(s, c.id)
            &&& entry(s, c.id) == c
            &&& is_due_unleased(c, now)
            &&& !routes.contains(c.domain_action_type)
        }
}

/// Every action the pass has taken on stands in the store as leased by the
/// pass, and every action it has marked as failed stands there as leased by
/// the pass and then marked as failed for want of an executor; none is both.
pub open spec fn placed(d: Dispatch, now: i64) -> bool {
    &&& forall|k: int|
        0 <= k < d.taken.len() ==> {
            let c = #[trigger] d.taken[k];
            &&& has_id(d.store, c.id)
            &&& entry(d.store, c.id) == leased(c, (now + LEASE_SECONDS) as i64, now)
            &&& !among(d.unroutable, c.id)
        }
    &&& forall|k: int|
        0 <= k < d.unroutable.len() ==> {
            let c = #[trigger] d.unroutable[k];
            &&& has_id(d.store, c.id)
            &&& entry(d.store, c.id) == errored(
                leased(c, (now + LEASE_SECONDS) as i64, now),
                missing_executor_message(),
                now,
            )
            &&& !among(d.taken, c.id)
        }
}

/// A pass over fresh candidates is never failed by the store and skips
/// nothing: it serves its candidates in turn until they or the connections
/// run out. It moves on the actions it serves and leaves the others as they
/// were.
pub proof fn lemma_fresh_pass(
    s: Seq<DomainActionView>,
    candidates: Seq<DomainActionView>,
    routes: Set<DomainActionTypes>,
    free: int,
    now: i64,
)
    requires
        well_formed(s),
        fresh(s, candidates, now),
        now + LEASE_SECONDS <= i64::MAX,
    ensures
        ({
            let d = dispatched(start(s), candidates, routes, free, now);
            &&& d.stopped is None || d.stopped == Some(Stop::PoolExhausted)
            &&& d.skipped.len() == 0
            &&& drawn_from(d, s, candidates, routes, now)
            &&& placed(d, now)
            &&& same_elsewhere(s, d.store, candidates)
            &&& carried_on(s, d.store, now)
        }),
    decreases candidates.len(),
{
    let d = dispatched(start(s), candidates, routes, free, now);
    if candidates.len() == 0 {
        assert(d == start(s));
    } else {
        let rest = candidates.drop_last();
        let c = candidates.last();
        let n = rest.len() as int;
        assert(fresh(s, rest, now)) by {
            assert forall|k: int| 0 <= k < rest.len() implies {
                let r = #[trigger] rest[k];
                has_id(s, r.id) && entry(s, r.id) == r && is_due_unleased(r, now)
            } by {
                assert(rest[k] == candidates[k]);
            }
            assert forall|i: int, j: int| 0 <= i < j < rest.len() implies (#[trigger] rest[i]).id
                != (#[trigger] rest[j]).id by {
                assert(candidates[i].id != candidates[j].id);
            }
        }
        lemma_fresh_pass(s, rest, routes, free, now);
        lemma_dispatch_is_sound(s, rest, routes, free, now);
        let e = dispatched(start(s), rest, routes, free, now);
        assert(d == step(e, c, routes, free, now));
        assert(c == candidates[n]);
        assert forall|id: u128| among(rest, id) implies among(candidates, id) by {
            let k = choose|k: int| 0 <= k < rest.len() && (#[trigger] rest[k]).id == id;
            assert(candidates[k].id == id);
        }
        assert(among(candidates, c.id));
        assert(!among(rest, c.id)) by {
            if among(rest, c.id) {
                let k = choose|k: int| 0 <= k < rest.len() && (#[trigger] rest[k]).id == c.id;
                assert(candidates[k].id != candidates[n].id);
            }
        }
        if e.stopped is None && e.taken.len() < free {
            assert(has_id(e.store, c.id) && entry(e.store, c.id) == c);
            let i = position(e.store, c.id);
            let a = leased(c, (now + LEASE_SECONDS) as i64, now);
            let t = e.store.update(i, a);
            assert(lease_result(e.store, c.id, LEASE_SECONDS, now) == Ok::<
                Seq<DomainActionView>,
                ErrorCode,
            >(t));
            lemma_update_entry(e.store, i, a);
            lemma_update_keeps_well_formed(e.store, i, a);
            let b = errored(a, missing_executor_message(), now);
            if routes.contains(c.domain_action_type) {
                assert(d.taken == e.taken.push(c));
                assert(d.unroutable == e.unroutable);
                assert(d.store == t);
            } else {
                lemma_position(t, i);
                assert(position(t, c.id) == i);
                assert(d.store == t.update(i, b));
                lemma_update_entry(t, i, b);
                assert(d.unroutable == e.unroutable.push(c));
                assert(d.taken == e.taken);
            }
            assert forall|k: int| 0 <= k < e.taken.len() implies (#[trigger] e.taken[k]).id
                != c.id by {
                assert(among(rest, e.taken[k].id));
            }
            assert forall|k: int| 0 <= k < e.unroutable.len() implies (
            #[trigger] e.unroutable[k]).id != c.id by {
                assert(among(rest, e.unroutable[k].id));
            }
            assert(placed(d, now)) by {
                assert forall|k: int| 0 <= k < d.taken.len() implies {
                    let x = #[trigger] d.taken[k];
                    &&& has_id(d.store, x.id)
                    &&& entry(d.store, x.id) == leased(x, (now + LEASE_SECONDS) as i64, now)
                    &&& !among(d.unroutable, x.id)
                } by {
                    let x = d.taken[k];
                    if k < e.taken.len() {
                        assert(x == e.taken[k]);
                        assert(has_id(e.store, x.id));
                        assert(entry(d.store, x.id) == entry(e.store, x.id));
                        assert(!among(e.unroutable, x.id));
                    } else {
                        assert(x == c);
                    }
                    if among(d.unroutable, x.id) {
                        let j = choose|j: int|
                            0 <= j < d.unroutable.len() && (#[trigger] d.unroutable[j]).id == x.id;
                        if j < e.unroutable.len() {
                            assert(d.unroutable[j] == e.unroutable[j]);
                        }
                    }
                }
                assert forall|k: int| 0 <= k < d.unroutable.len() implies {
                    let x = #[trigger] d.unroutable[k];
                    &&& has_id(d.store, x.id)
                    &&& entry(d.store, x.id) == errored(
                        leased(x, (now + LEASE_SECONDS) as i64, now),
                        missing_executor_message(),
                        now,
                    )
                    &&& !among(d.taken, x.id)
                } by {
                    let x = d.unroutable[k];
                    if k < e.unroutable.len() {
                        assert(x == e.unroutable[k]);
                        assert(has_id(e.store, x.id));
                        assert(entry(d.store, x.id) == entry(e.store, x.id));
                        assert(!among(e.taken, x.id));
                    } else {
                        assert(x == c);
                    }
                    if among(d.taken, x.id) {
                        let j = choose|j: int|
                            0 <= j < d.taken.len() && (#[trigger] d.taken[j]).id == x.id;
                        if j < e.taken.len() {
                            assert(d.taken[j] == e.taken[j]);
                        }
                    }
                }
            }
            assert forall|id: u128|
                #![trigger has_id(d.store, id)]
                #![trigger entry(d.store, id)]
                (has_id(d.store, id) <==> has_id(s, id)) && (has_id(s, id) ==> moved_on(
                    entry(s, id),
                    entry(d.store, id),
                    now,
                )) by {
                assert(has_id(e.store, id) <==> has_id(s, id));
                if has_id(s, id) {
                    assert(moved_on(entry(s, id), entry(e.store, id), now));
                    if id == c.id {
                        assert(entry(d.store, id) == a || entry(d.store, id) == b);
                    } else {
                        assert(entry(d.store, id) == entry(e.store, id));
                    }
                }
            }
            assert forall|id: u128|
                #![trigger has_id(d.store, id)]
                #![trigger entry(d.store, id)]
                has_id(s, id) && !among(candidates, id) implies has_id(d.store, id) && entry(
                    d.store,
                    id,
                ) == entry(s, id) by {
                assert(id != c.id);
                assert(!among(rest, id)) by {
                    if among(rest, id) {
                        assert(among(candidates, id));
                    }
                }
                assert(has_id(e.store, id) && entry(e.store, id) == entry(s, id));
            }
        } else {
            assert(d.store == e.store && d.taken == e.taken && d.unroutable == e.unroutable);
            assert(placed(d, now));
            assert forall|id: u128|
                #![trigger has_id(d.store, id)]
                #![trigger entry(d.store, id)]
                has_id(s, id) && !among(candidates, id) implies has_id(d.store, id) && entry(
                    d.store,
                    id,
                ) == entry(s, id) by {
                assert(!among(rest, id)) by {
                    if among(rest, id) {
                        assert(among(candidates, id));
                    }
                }
                assert(has_id(e.store, id) && entry(e.store, id) == entry(s, id));
            }
        }
        assert forall|k: int| 0 <= k < d.taken.len() implies {
            let x = #[trigger] d.taken[k];
            &&& among(candidates, x.id)
            &&& has_id(s, x.id)
            &&& entry(s, x.id) == x
            &&& is_due_unleased(x, now)
            &&& routes.contains(x.domain_action_type)
        } by {
            if k < e.taken.len() {
                assert(d.taken[k] == e.taken[k]);
                assert(among(rest, e.taken[k].id));
            }
        }
        assert forall|k: int| 0 <= k < d.unroutable.len() implies {
            let x = #[trigger] d.unroutable[k];
            &&& among(candidates, x.id)
            &&& has_id(s, x.id)
            &&& entry(s, x.id) == x
            &&& is_due_unleased(x, now)
            &&& !routes.contains(x.domain_action_type)
        } by {
            if k < e.unroutable.len() {
                assert(d.unroutable[k] == e.unroutable[k]);
                assert(among(rest, e.unroutable[k].id));
            }
        }
    }
}

/// What the first stage of a pass over a well-formed store comes to. The
/// store fails the pass only where the pool has no connection for the
/// dispatcher. Otherwise nothing is skipped; the actions taken on and those
/// marked as failed were due and free, the first with an executor and the
/// others without one; and the store holds the same actions, each as it was
/// or moved on.
pub proof fn lemma_poll_outcome(
    s: Seq<DomainActionView>,
    routes: Set<DomainActionTypes>,
    limit: usize,
    capacity: nat,
    in_use: nat,
    now: i64,
)
    requires
        well_formed(s),
        now + LEASE_SECONDS <= i64::MAX,
    ensures
        ({
            let d = polled(s, routes, limit, capacity, in_use, now);
            let due = selection(s, Query::DueUnleased { now }, Some(limit));
            &&& in_use >= capacity ==> d == (Dispatch {
                stopped: Some(Stop::Failed(ErrorCode::ConnectionError)),
                ..start(s)
            })
            &&& in_use < capacity ==> d.stopped is None || d.stopped == Some(Stop::PoolExhausted)
            &&& d.skipped.len() == 0
            &&& drawn_from(d, s, due, routes, now)
            &&& placed(d, now)
            &&& carried_on(s, d.store, now)
            &&& sound(d, s, now)
        }),
{
    let due = selection(s, Query::DueUnleased { now }, Some(limit));
    if in_use < capacity {
        lemma_poll_is_fresh(s, limit, now);
        lemma_fresh_pass(s, due, routes, capacity - in_use - 1, now);
        lemma_dispatch_is_sound(s, due, routes, capacity - in_use - 1, now);
    } else {
        lemma_dispatch_is_sound(s, Seq::<DomainActionView>::empty(), routes, 0, now);
        assert(dispatched(start(s), Seq::<DomainActionView>::empty(), routes, 0, now) == start(s));
    }
}

/// A pass takes its candidates on in their order: what it has taken on are
/// candidates, and if the candidates stand in the order of their schedule,
/// so does what it has taken on.
pub proof fn lemma_taken_in_order(
    d0: Dispatch,
    candidates: Seq<DomainActionView>,
    routes: Set<DomainActionTypes>,
    free: int,
    now: i64,
)
    requires
        d0.taken.len() == 0,
        in_schedule_order(candidates),
    ensures
        ({
            let d = dispatched(d0, candidates, routes, free, now);
            &&& in_schedule_order(d.taken)
            &&& forall|k: int| 0 <= k < d.taken.len() ==> candidates.contains(#[trigger] d.taken[k])
        }),
    decreases candidates.len(),
{
    let d = dispatched(d0, candidates, routes, free, now);
    if candidates.len() > 0 {
        let rest = candidates.drop_last();
        let c = candidates.last();
        assert(in_schedule_order(rest)) by {
            assert forall|i: int, j: int| 0 <= i <= j < rest.len() implies (
            #[trigger] rest[i]).scheduled_at <= (#[trigger] rest[j]).scheduled_at by {
                assert(candidates[i].scheduled_at <= candidates[j].scheduled_at);
            }
        }
        lemma_taken_in_order(d0, rest, routes, free, now);
        let e = dispatched(d0, rest, routes, free, now);
        assert(d == step(e, c, routes, free, now));
        assert(c == candidates[candidates.len() - 1]);
        assert forall|k: int| 0 <= k < d.taken.len() implies candidates.contains(
            #[trigger] d.taken[k],
        ) by {
            if k < e.taken.len() {
                assert(d.taken[k] == e.taken[k]);
                assert(rest.contains(e.taken[k]));
                let j = choose|j: int| 0 <= j < rest.len() && rest[j] == e.taken[k];
                assert(candidates[j] == e.taken[k]);
            }
        }
        assert forall|i: int, j: int| 0 <= i <= j < d.taken.len() implies (
        #[trigger] d.taken[i]).scheduled_at <= (#[trigger] d.taken[j]).scheduled_at by {
            if j < e.taken.len() {
                assert(d.taken[i] == e.taken[i] && d.taken[j] == e.taken[j]);
                assert(e.taken[i].scheduled_at <= e.taken[j].scheduled_at);
            } else if i < e.taken.len() {
                assert(d.taken[i] == e.taken[i]);
                assert(rest.contains(e.taken[i]));
                let x = choose|x: int| 0 <= x < rest.len() && rest[x] == e.taken[i];
                assert(candidates[x].scheduled_at <= candidates[candidates.len() - 1].scheduled_at);
            }
        }
    }
}

/// What holds of a pass that has polled the store `s` at `now`, whatever
/// the store holds. It has skipped nothing. Every action it has taken on
/// was held by `s` as the batch has it, due and free; they stand in the
/// order of their schedule, the earliest first. Every action it has marked
/// as failed was due and free too, is in no assignment, and stands in the
/// store as failed with the text that says that it has no executor: see
/// `placed`. The store holds the same actions as `s`, each as it was or
/// moved on: an action that is not due, that a worker holds or that has
/// reached a terminal state is as it was.
pub open spec fn orderly(d: Dispatch, s: Seq<DomainActionView>, now: i64) -> bool {
    &&& d.skipped.len() == 0
    &&& forall|k: int|
        0 <= k < d.taken.len() ==> {
            let c = #[trigger] d.taken[k];
            has_id(s, c.id) && entry(s, c.id) == c && is_due_unleased(c, now)
        }
    &&& in_schedule_order(d.taken)
    &&& forall|k: int|
        0 <= k < d.unroutable.len() ==> {
            let c = #[trigger] d.unroutable[k];
            has_id(s, c.id) && entry(s, c.id) == c && is_due_unleased(c, now)
        }
    &&& placed(d, now)
    &&& carried_on(s, d.store, now)
}

/// The first stage of a pass over a well-formed store is orderly, and the
/// store fails it only where the pool has no connection for the dispatcher.
pub proof fn lemma_poll_is_orderly(
    s: Seq<DomainActionView>,
    routes: Set<DomainActionTypes>,
    limit: usize,
    capacity: nat,
    in_use: nat,
    now: i64,
)
    requires
        well_formed(s),
        now + LEASE_SECONDS <= i64::MAX,
    ensures
        orderly(polled(s, routes, limit, capacity, in_use, now), s, now),
        polled(s, routes, limit, capacity, in_use, now).stopped matches Some(Stop::Failed(code))
            ==> code == ErrorCode::ConnectionError && in_use >= capacity,
{
    lemma_poll_outcome(s, routes, limit, capacity, in_use, now);
    if in_use < capacity {
        let due = selection(s, Query::DueUnleased { now }, Some(limit));
        lemma_selection_in_order(s, Query::DueUnleased { now }, Some(limit));
        lemma_taken_in_order(start(s), due, routes, capacity - in_use - 1, now);
    }
}

/// An action under a live lease is passed over. A pass that polls the
/// store at `now` neither takes on nor marks as failed an action that a
/// worker holds at `now`, and leaves it as it is: the lost race is no error
/// of the pass.
pub proof fn leased_action_is_passed_over(
    t: Seq<DomainActionView>,
    routes: Set<DomainActionTypes>,
    limit: usize,
    capacity: nat,
    in_use: nat,
    now: i64,
    id: u128,
)
    requires
        well_formed(t),
        now + LEASE_SECONDS <= i64::MAX,
        has_id(t, id),
        lease_is_live(entry(t, id), now),
    ensures
        ({
            let d = polled(t, routes, limit, capacity, in_use, now);
            &&& !among(d.taken, id)
            &&& !among(d.unroutable, id)
            &&& has_id(d.store, id)
            &&& entry(d.store, id) == entry(t, id)
            &&& d.skipped.len() == 0
        }),
{
    let d = polled(t, routes, limit, capacity, in_use, now);
    lemma_poll_outcome(t, routes, limit, capacity, in_use, now);
    assert(has_id(d.store, id));
    assert(moved_on(entry(t, id), entry(d.store, id), now));
    if among(d.taken, id) {
        let k = choose|k: int| 0 <= k < d.taken.len() && (#[trigger] d.taken[k]).id == id;
        assert(is_due_unleased(d.taken[k], now));
    }
    if among(d.unroutable, id) {
        let k = choose|k: int| 0 <= k < d.unroutable.len() && (#[trigger] d.unroutable[k]).id == id;
        assert(is_due_unleased(d.unroutable[k], now));
    }
}

/// Of two workers that poll one store, one takes the action. What the pass
/// of the first worker at `first_at` has taken on, the pass of a second
/// worker that polls before the lease has run out passes over: the action
/// stays busy under the lease of the first, until `first_at +
/// LEASE_SECONDS`.
pub proof fn second_poll_passes_over_what_the_first_took(
    s: Seq<DomainActionView>,
    first: (Set<DomainActionTypes>, usize, nat, nat),
    first_at: i64,
    second: (Set<DomainActionTypes>, usize, nat, nat),
    second_at: i64,
    k: int,
)
    requires
        well_formed(s),
        first_at <= second_at < first_at + LEASE_SECONDS,
        second_at + LEASE_SECONDS <= i64::MAX,
        0 <= k < polled(s, first.0, first.1, first.2, first.3, first_at).taken.len(),
    ensures
        ({
            let d = polled(s, first.0, first.1, first.2, first.3, first_at);
            let e = polled(d.store, second.0, second.1, second.2, second.3, second_at);
            let id = d.taken[k].id;
            &&& !among(e.taken, id)
            &&& !among(e.unroutable, id)
            &&& e.skipped.len() == 0
            &&& has_id(e.store, id)
            &&& entry(e.store, id).status is Busy
            &&& entry(e.store, id).busy_until == Some((first_at + LEASE_SECONDS) as i64)
        }),
{
    let d = polled(s, first.0, first.1, first.2, first.3, first_at);
    lemma_poll_outcome(s, first.0, first.1, first.2, first.3, first_at);
    assert(held(d.store, d.taken[k].id, first_at));
    leased_action_is_passed_over(
        d.store,
        second.0,
        second.1,
        second.2,
        second.3,
        second_at,
        d.taken[k].id,
    );
}

/// A pass that has a connection for each of its candidates, and whose
/// candidates are fresh, serves them all: it skips none, it does not stop,
/// and it takes on every candidate whose type has an executor and marks the
/// others as failed.
pub proof fn lemma_fresh_pass_serves_all(
    s: Seq<DomainActionView>,
    candidates: Seq<DomainActionView>,
    routes: Set<DomainActionTypes>,
    free: int,
    now: i64,
)
    requires
        well_formed(s),
        fresh(s, candidates, now),
        candidates.len() <= free,
        now + LEASE_SECONDS <= i64::MAX,
    ensures
        ({
            let d = dispatched(start(s), candidates, routes, free, now);
            &&& d.stopped is None
            &&& d.skipped.len() == 0
            &&& d.taken.len() + d.unroutable.len() == candidates.len()
            &&& forall|k: int|
                0 <= k < candidates.len() ==> if routes.contains(
                    (#[trigger] candidates[k]).domain_action_type,
                ) {
                    d.taken.contains(candidates[k])
                } else {
                    d.unroutable.contains(candidates[k])
                }
            &&& same_elsewhere(s, d.store, candidates)
        }),
    decreases candidates.len(),
{
    let d = dispatched(start(s), candidates, routes, free, now);
    if candidates.len() > 0 {
        let rest = candidates.drop_last();
        let c = candidates.last();
        let n = rest.len() as int;
        assert(fresh(s, rest, now)) by {
            assert forall|k: int| 0 <= k < rest.len() implies {
                let r = #[trigger] rest[k];
                has_id(s, r.id) && entry(s, r.id) == r && is_due_unleased(r, now)
            } by {
                assert(rest[k] == candidates[k]);
            }
            assert forall|i: int, j: int| 0 <= i < j < rest.len() implies (#[trigger] rest[i]).id
                != (#[trigger] rest[j]).id by {
                assert(candidates[i].id != candidates[j].id);
            }
        }
        lemma_fresh_pass_serves_all(s, rest, routes, free, now);
        lemma_dispatch_is_sound(s, rest, routes, free, now);
        let e = dispatched(start(s), rest, routes, free, now);
        assert(d == step(e, c, routes, free, now));
        assert(c == candidates[n]);
        assert(!among(rest, c.id)) by {
            if among(rest, c.id) {
                let k = choose|k: int| 0 <= k < rest.len() && (#[trigger] rest[k]).id == c.id;
                assert(candidates[k].id != candidates[n].id);
            }
        }
        assert(has_id(e.store, c.id) && entry(e.store, c.id) == c);
        let i = position(e.store, c.id);
        let a = leased(c, (now + LEASE_SECONDS) as i64, now);
        let t = e.store.update(i, a);
        assert(lease_result(e.store, c.id, LEASE_SECONDS, now) == Ok::<
            Seq<DomainActionView>,
            ErrorCode,
        >(t));
        lemma_update_entry(e.store, i, a);
        lemma_update_keeps_well_formed(e.store, i, a);
        if routes.contains(c.domain_action_type) {
            assert(d.taken == e.taken.push(c));
            assert(d.taken[e.taken.len() as int] == c);
            assert(d.unroutable == e.unroutable);
            assert(d.store == t);
        } else {
            let b = errored(a, missing_executor_message(), now);
            lemma_position(t, i);
            assert(position(t, c.id) == i);
            assert(d.store == t.update(i, b));
            lemma_update_entry(t, i, b);
            assert(d.unroutable == e.unroutable.push(c));
            assert(d.unroutable[e.unroutable.len() as int] == c);
            assert(d.taken == e.taken);
        }
        assert forall|k: int| 0 <= k < candidates.len() implies if routes.contains(
            (#[trigger] candidates[k]).domain_action_type,
        ) {
            d.taken.contains(candidates[k])
        } else {
            d.unroutable.contains(candidates[k])
        } by {
            if k < n {
                assert(rest[k] == candidates[k]);
                if routes.contains(rest[k].domain_action_type) {
                    let j = choose|j: int| 0 <= j < e.taken.len() && e.taken[j] == rest[k];
                    assert(d.taken[j] == rest[k]);
                } else {
                    let j = choose|j: int| 0 <= j < e.unroutable.len() && e.unroutable[j] == rest[k];
                    assert(d.unroutable[j] == rest[k]);
                }
            }
        }
        assert forall|id: u128| has_id(s, id) && !among(candidates, id) implies has_id(d.store, id)
            && entry(d.store, id) == entry(s, id) by {
            assert(id != c.id) by {
                if id == c.id {
                    assert(candidates[n].id == id);
                }
            }
            assert(!among(rest, id)) by {
                if among(rest, id) {
                    let k = choose|k: int| 0 <= k < rest.len() && (#[trigger] rest[k]).id == id;
                    assert(candidates[k].id == id);
                }
            }
            assert(has_id(e.store, id) && entry(e.store, id) == entry(s, id));
        }
    }
}

/// Half the pool is enough. A pass polls for no more actions than half the
/// pool's connections, so a pass that finds the pool idle has a connection
/// for itself and one for each action it finds: it serves every action it
/// finds, skips none and does not stop. So does every pass that finds a
/// connection for itself and one for each action of its limit.
pub proof fn half_the_pool_is_enough(
    s: Seq<DomainActionView>,
    routes: Set<DomainActionTypes>,
    max: u32,
    in_use: nat,
    now: i64,
)
    requires
        well_formed(s),
        now + LEASE_SECONDS <= i64::MAX,
        in_use + 1 + batch_limit(max) <= max,
    ensures
        max >= 2 ==> 1 + batch_limit(max) <= max,
        ({
            let limit = batch_limit(max) as usize;
            let d = polled(s, routes, limit, max as nat, in_use, now);
            &&& d.stopped is None
            &&& d.skipped.len() == 0
            &&& d.taken.len() + d.unroutable.len() == found_by_poll(s, limit, max as nat, in_use, now)
            &&& reported_error(d) is None <==> d.unroutable.len() == 0
        }),
{
    let limit = batch_limit(max) as usize;
    let free = max - in_use - 1;
    let due = selection(s, Query::DueUnleased { now }, Some(limit));
    lemma_poll_is_fresh(s, limit, now);
    lemma_selection_answers(s, Query::DueUnleased { now }, Some(limit));
    assert(due.len() <= free);
    lemma_fresh_pass_serves_all(s, due, routes, free, now);
    assert(polled(s, routes, limit, max as nat, in_use, now) == dispatched(
        start(s),
        due,
        routes,
        free,
        now,
    ));
}

/// A due action is taken on. A pass that finds a connection for itself and
/// one for each action of its limit takes on every action that is due and
/// held by no worker and whose type has an executor, provided that no more
/// actions are due than the limit of the pass; and it marks as failed every
/// such action whose type has none.
pub proof fn due_action_is_served(
    s: Seq<DomainActionView>,
    routes: Set<DomainActionTypes>,
    max: u32,
    in_use: nat,
    now: i64,
    i: int,
)
    requires
        well_formed(s),
        now + LEASE_SECONDS <= i64::MAX,
        in_use + 1 + batch_limit(max) <= max,
        0 <= i < s.len(),
        is_due_unleased(s[i], now),
        s.filter(answering(Query::DueUnleased { now })).len() <= batch_limit(max),
    ensures
        ({
            let d = polled(s, routes, batch_limit(max) as usize, max as nat, in_use, now);
            if routes.contains(s[i].domain_action_type) {
                d.taken.contains(s[i]) && held(d.store, s[i].id, now)
            } else {
                d.unroutable.contains(s[i])
            }
        }),
{
    let q = Query::DueUnleased { now };
    let limit = batch_limit(max) as usize;
    let free = max - in_use - 1;
    let due = selection(s, q, Some(limit));
    assert(due == s.filter(answering(q)));
    assert(answering(q)(s[i]));
    s.lemma_filter_contains(answering(q), i);
    let k = choose|k: int| 0 <= k < due.len() && due[k] == s[i];
    lemma_poll_is_fresh(s, limit, now);
    lemma_fresh_pass_serves_all(s, due, routes, free, now);
    lemma_dispatch_is_sound(s, due, routes, free, now);
    let d = dispatched(start(s), due, routes, free, now);
    assert(polled(s, routes, limit, max as nat, in_use, now) == d);
    if routes.contains(s[i].domain_action_type) {
        assert(d.taken.contains(due[k]));
        let j = choose|j: int| 0 <= j < d.taken.len() && d.taken[j] == s[i];
        assert(held(d.store, d.taken[j].id, now));
    }
}

/// The action is one of the first `served` candidates.
pub open spec fn in_front(candidates: Seq<DomainActionView>, served: int, x: DomainActionView) -> bool {
    exists|j: int| 0 <= j < served && j < candidates.len() && #[trigger] candidates[j] == x
}

/// A pass over fresh candidates serves them from the front: it has taken
/// on or marked as failed each of the first candidates, as many as it has
/// served, and nothing else; if it has not stopped, it has served them all.
pub proof fn lemma_pass_serves_from_the_front(
    s: Seq<DomainActionView>,
    candidates: Seq<DomainActionView>,
    routes: Set<DomainActionTypes>,
    free: int,
    now: i64,
)
    requires
        well_formed(s),
        fresh(s, candidates, now),
        now + LEASE_SECONDS <= i64::MAX,
    ensures
        ({
            let d = dispatched(start(s), candidates, routes, free, now);
            let served = d.taken.len() + d.unroutable.len();
            &&& served <= candidates.len()
            &&& d.stopped is None ==> served == candidates.len()
            &&& forall|j: int|
                0 <= j < served ==> among(d.taken, (#[trigger] candidates[j]).id) || among(
                    d.unroutable,
                    candidates[j].id,
                )
            &&& forall|k: int|
                0 <= k < d.taken.len() ==> in_front(candidates, served as int, #[trigger] d.taken[k])
        }),
    decreases candidates.len(),
{
    let d = dispatched(start(s), candidates, routes, free, now);
    if candidates.len() == 0 {
        assert(d == start(s));
    } else {
        let rest = candidates.drop_last();
        let c = candidates.last();
        assert(fresh(s, rest, now)) by {
            assert forall|k: int| 0 <= k < rest.len() implies {
                let r = #[trigger] rest[k];
                has_id(s, r.id) && entry(s, r.id) == r && is_due_unleased(r, now)
            } by {
                assert(rest[k] == candidates[k]);
            }
            assert forall|i: int, j: int| 0 <= i < j < rest.len() implies (#[trigger] rest[i]).id
                != (#[trigger] rest[j]).id by {
                assert(candidates[i].id != candidates[j].id);
            }
        }
        lemma_pass_serves_from_the_front(s, rest, routes, free, now);
        lemma_fresh_pass(s, rest, routes, free, now);
        let e = dispatched(start(s), rest, routes, free, now);
        let before = e.taken.len() + e.unroutable.len();
        let served = d.taken.len() + d.unroutable.len();
        assert(d == step(e, c, routes, free, now));
        assert(c == candidates[rest.len() as int]);
        assert(!among(rest, c.id)) by {
            if among(rest, c.id) {
                let k = choose|k: int| 0 <= k < rest.len() && (#[trigger] rest[k]).id == c.id;
                assert(candidates[k].id != candidates[rest.len() as int].id);
            }
        }
        if e.stopped is None && e.taken.len() < free {
            assert(has_id(e.store, c.id) && entry(e.store, c.id) == c);
            assert(lease_result(e.store, c.id, LEASE_SECONDS, now) is Ok);
            assert(served == candidates.len());
            if routes.contains(c.domain_action_type) {
                assert(d.taken == e.taken.push(c));
                assert(d.taken[e.taken.len() as int].id == c.id);
            } else {
                assert(d.unroutable == e.unroutable.push(c));
                assert(d.unroutable[e.unroutable.len() as int].id == c.id);
            }
        } else {
            assert(d.taken == e.taken && d.unroutable == e.unroutable);
            assert(d.stopped is Some);
            assert(served == before);
        }
        assert(served <= candidates.len());
        assert(d.stopped is None ==> served == candidates.len());
        assert forall|j: int| 0 <= j < served implies among(
            d.taken,
            (#[trigger] candidates[j]).id,
        ) || among(d.unroutable, candidates[j].id) by {
            if j < before {
                assert(rest[j] == candidates[j]);
                assert(among(e.taken, rest[j].id) || among(e.unroutable, rest[j].id));
                if among(e.taken, rest[j].id) {
                    let k = choose|k: int|
                        0 <= k < e.taken.len() && (#[trigger] e.taken[k]).id == rest[j].id;
                    assert(d.taken[k] == e.taken[k]);
                } else {
                    let k = choose|k: int|
                        0 <= k < e.unroutable.len() && (#[trigger] e.unroutable[k]).id == rest[j].id;
                    assert(d.unroutable[k] == e.unroutable[k]);
                }
            } else {
                assert(j == rest.len());
                assert(candidates[j] == c);
            }
        }
        assert forall|k: int| 0 <= k < d.taken.len() implies in_front(
            candidates,
            served as int,
            #[trigger] d.taken[k],
        ) by {
            if k < e.taken.len() {
                assert(d.taken[k] == e.taken[k]);
                assert(in_front(rest, before as int, e.taken[k]));
                let j = choose|j: int|
                    0 <= j < before && j < rest.len() && #[trigger] rest[j] == e.taken[k];
                assert(candidates[j] == d.taken[k]);
            } else {
                assert(candidates[rest.len() as int] == d.taken[k]);
            }
        }
    }
}

/// Nothing earlier is left out. Of the actions that were due and free when
/// the pass polled the store, one that the pass has neither taken on nor
/// marked as failed is scheduled no earlier than any that it has taken on.
pub proof fn nothing_earlier_is_left_out(
    s: Seq<DomainActionView>,
    routes: Set<DomainActionTypes>,
    limit: usize,
    capacity: nat,
    in_use: nat,
    now: i64,
    i: int,
)
    requires
        well_formed(s),
        now + LEASE_SECONDS <= i64::MAX,
        0 <= i < s.len(),
        is_due_unleased(s[i], now),
        !among(polled(s, routes, limit, capacity, in_use, now).taken, s[i].id),
        !among(polled(s, routes, limit, capacity, in_use, now).unroutable, s[i].id),
    ensures
        forall|k: int|
            0 <= k < polled(s, routes, limit, capacity, in_use, now).taken.len() ==> (
            #[trigger] polled(s, routes, limit, capacity, in_use, now).taken[k]).scheduled_at
                <= s[i].scheduled_at,
{
    let d = polled(s, routes, limit, capacity, in_use, now);
    if in_use < capacity {
        let q = Query::DueUnleased { now };
        let due = selection(s, q, Some(limit));
        let all = s.filter(answering(q));
        let free = capacity - in_use - 1;
        let served = d.taken.len() + d.unroutable.len();
        lemma_poll_is_fresh(s, limit, now);
        lemma_pass_serves_from_the_front(s, due, routes, free, now);
        lemma_selection_in_order(s, q, Some(limit));
        assert(answering(q)(s[i]));
        s.lemma_filter_contains(answering(q), i);
        let y = choose|y: int| 0 <= y < all.len() && all[y] == s[i];
        assert forall|k: int| 0 <= k < d.taken.len() implies (#[trigger] d.taken[k]).scheduled_at
            <= s[i].scheduled_at by {
            assert(in_front(due, served as int, d.taken[k]));
            let x = choose|x: int|
                0 <= x < served && x < due.len() && #[trigger] due[x] == d.taken[k];
            assert(due[x] == all[x]);
            if y < served {
                assert(due[y] == all[y]);
                assert(among(d.taken, due[y].id) || among(d.unroutable, due[y].id));
            }
            assert(all[x].scheduled_at <= all[y].scheduled_at);
        }
    } else {
        lemma_poll_outcome(s, routes, limit, capacity, in_use, now);
    }
}

/// Of two workers that poll one store, one takes the action, whatever else
/// the store holds. A pass with room in the pool takes on an action that is
/// due and free and has an executor; the pass of a second worker that polls
/// before the lease has run out passes the action over, and is not failed
/// for it; a lease that is asked of the store then is refused with
/// `ConcurrencyError`; and the action stays busy until the end of the lease
/// of the first.
pub proof fn one_of_two_polling_workers_takes_the_action(
    s: Seq<DomainActionView>,
    routes: Set<DomainActionTypes>,
    max: u32,
    in_use: nat,
    first_at: i64,
    second: (Set<DomainActionTypes>, usize, nat, nat),
    second_at: i64,
    duration: u32,
    i: int,
)
    requires
        well_formed(s),
        in_use + 1 + batch_limit(max) <= max,
        0 <= i < s.len(),
        is_due_unleased(s[i], first_at),
        routes.contains(s[i].domain_action_type),
        s.filter(answering(Query::DueUnleased { now: first_at })).len() <= batch_limit(max),
        first_at <= second_at < first_at + LEASE_SECONDS,
        second_at + LEASE_SECONDS <= i64::MAX,
    ensures
        ({
            let d = polled(s, routes, batch_limit(max) as usize, max as nat, in_use, first_at);
            let e = polled(d.store, second.0, second.1, second.2, second.3, second_at);
            let id = s[i].id;
            &&& d.taken.contains(s[i])
            &&& !among(e.taken, id)
            &&& !among(e.unroutable, id)
            &&& e.skipped.len() == 0
            &&& has_id(e.store, id)
            &&& entry(e.store, id).status is Busy
            &&& entry(e.store, id).busy_until == Some((first_at + LEASE_SECONDS) as i64)
            &&& lease_result(e.store, id, duration, second_at) == Err::<
                Seq<DomainActionView>,
                ErrorCode,
            >(ErrorCode::ConcurrencyError)
        }),
{
    let d = polled(s, routes, batch_limit(max) as usize, max as nat, in_use, first_at);
    due_action_is_served(s, routes, max, in_use, first_at, i);
    let k = choose|k: int| 0 <= k < d.taken.len() && d.taken[k] == s[i];
    second_poll_passes_over_what_the_first_took(
        s,
        (routes, batch_limit(max) as usize, max as nat, in_use),
        first_at,
        second,
        second_at,
        k,
    );
}

/// The action behind one that a worker holds is taken on. A pass with room
/// in the pool passes over an action under a live lease, leaves it as it
/// is and is not failed for it, and takes on the due action behind it.
pub proof fn action_behind_a_leased_one_is_taken(
    s: Seq<DomainActionView>,
    routes: Set<DomainActionTypes>,
    max: u32,
    in_use: nat,
    now: i64,
    held_id: u128,
    i: int,
)
    requires
        well_formed(s),
        now + LEASE_SECONDS <= i64::MAX,
        in_use + 1 + batch_limit(max) <= max,
        has_id(s, held_id),
        lease_is_live(entry(s, held_id), now),
        0 <= i < s.len(),
        is_due_unleased(s[i], now),
        routes.contains(s[i].domain_action_type),
        s.filter(answering(Query::DueUnleased { now })).len() <= batch_limit(max),
    ensures
        ({
            let d = polled(s, routes, batch_limit(max) as usize, max as nat, in_use, now);
            &&& !among(d.taken, held_id)
            &&& !among(d.unroutable, held_id)
            &&& entry(d.store, held_id) == entry(s, held_id)
            &&& d.taken.contains(s[i])
            &&& d.stopped is None
            &&& d.skipped.len() == 0
        }),
{
    leased_action_is_passed_over(
        s,
        routes,
        batch_limit(max) as usize,
        max as nat,
        in_use,
        now,
        held_id,
    );
    due_action_is_served(s, routes, max, in_use, now, i);
    half_the_pool_is_enough(s, routes, max, in_use, now);
}

/// An action is handed out again once its lease has run out. A busy action
/// that is due is passed over and left as it is by a pass that polls before
/// the end of its lease; a pass with room in the pool that polls at or after
/// the end of its lease takes it on, though it was never settled, and holds
/// it under a lease of its own.
pub proof fn action_is_handed_out_again_once_its_lease_has_run_out(
    s: Seq<DomainActionView>,
    routes: Set<DomainActionTypes>,
    max: u32,
    in_use: nat,
    now: i64,
    i: int,
)
    requires
        well_formed(s),
        now + LEASE_SECONDS <= i64::MAX,
        in_use + 1 + batch_limit(max) <= max,
        0 <= i < s.len(),
        s[i].status is Busy,
        s[i].scheduled_at <= now,
        routes.contains(s[i].domain_action_type),
        s.filter(answering(Query::DueUnleased { now })).len() <= batch_limit(max),
    ensures
        ({
            let d = polled(s, routes, batch_limit(max) as usize, max as nat, in_use, now);
            let until = s[i].busy_until.unwrap();
            &&& now < until ==> !among(d.taken, s[i].id) && entry(d.store, s[i].id) == s[i]
            &&& until <= now ==> d.taken.contains(s[i]) && held(d.store, s[i].id, now)
        }),
{
    lemma_position(s, i);
    if now < s[i].busy_until.unwrap() {
        leased_action_is_passed_over(
            s,
            routes,
            batch_limit(max) as usize,
            max as nat,
            in_use,
            now,
            s[i].id,
        );
    } else {
        due_action_is_served(s, routes, max, in_use, now, i);
    }
}

/// An action without executor is marked as failed. A pass with room in the
/// pool hands an action that is due and free, and whose type has no
/// executor, to no executor: it marks the action as failed, with a text
/// that says that no executor exists for the type, and reports a
/// configuration error for a type that has no executor.
pub proof fn action_without_executor_is_marked_as_failed(
    s: Seq<DomainActionView>,
    routes: Set<DomainActionTypes>,
    max: u32,
    in_use: nat,
    now: i64,
    i: int,
)
    requires
        well_formed(s),
        now + LEASE_SECONDS <= i64::MAX,
        in_use + 1 + batch_limit(max) <= max,
        0 <= i < s.len(),
        is_due_unleased(s[i], now),
        !routes.contains(s[i].domain_action_type),
        s.filter(answering(Query::DueUnleased { now })).len() <= batch_limit(max),
    ensures
        ({
            let d = polled(s, routes, batch_limit(max) as usize, max as nat, in_use, now);
            let id = s[i].id;
            &&& d.unroutable.contains(s[i])
            &&& !among(d.taken, id)
            &&& has_id(d.store, id)
            &&& entry(d.store, id).status is Errored
            &&& entry(d.store, id).last_error == Some(missing_executor_message())
            &&& missing_executor_message().len() > 0
            &&& reported_error(d) matches Some(DomainActionError::Configuration { action_type })
            &&& !routes.contains(action_type)
        }),
{
    let d = polled(s, routes, batch_limit(max) as usize, max as nat, in_use, now);
    due_action_is_served(s, routes, max, in_use, now, i);
    half_the_pool_is_enough(s, routes, max, in_use, now);
    lemma_poll_outcome(s, routes, batch_limit(max) as usize, max as nat, in_use, now);
    let k = choose|k: int| 0 <= k < d.unroutable.len() && d.unroutable[k] == s[i];
    assert(d.unroutable[k].id == s[i].id);
    assert(!routes.contains(d.unroutable[0].domain_action_type));
    reveal_strlit("No executor has been created for this action type");
}

/// Within one pass no action is taken on twice, whatever candidates the
/// pass is given, and every action it takes on is held by the lease of the
/// pass when the pass hands it out.
pub proof fn no_action_is_taken_on_twice(
    before: Seq<DomainActionView>,
    candidates: Seq<DomainActionView>,
    routes: Set<DomainActionTypes>,
    free: int,
    now: i64,
)
    requires
        well_formed(before),
        now + LEASE_SECONDS <= i64::MAX,
    ensures
        ({
            let d = dispatched(start(before), candidates, routes, free, now);
            &&& forall|i: int, j: int|
                0 <= i < j < d.taken.len() ==> (#[trigger] d.taken[i]).id != (#[trigger] d.taken[j]).id
            &&& forall|k: int|
                0 <= k < d.taken.len() ==> lease_is_live(
                    entry(d.store, (#[trigger] d.taken[k]).id),
                    now,
                )
            &&& d.taken.len() <= free || d.taken.len() == 0
        }),
{
    lemma_dispatch_is_sound(before, candidates, routes, free, now);
    lemma_pass_respects_the_pool(start(before), candidates, routes, free, now);
    let d = dispatched(start(before), candidates, routes, free, now);
    assert forall|k: int| 0 <= k < d.taken.len() implies lease_is_live(
        entry(d.store, (#[trigger] d.taken[k]).id),
        now,
    ) by {
        assert(held(d.store, d.taken[k].id, now));
    }
}

/// A pass takes on no more actions than the pool has connections to lend.
pub proof fn lemma_pass_respects_the_pool(
    d: Dispatch,
    candidates: Seq<DomainActionView>,
    routes: Set<DomainActionTypes>,
    free: int,
    now: i64,
)
    requires
        d.taken.len() <= free || d.taken.len() == 0,
    ensures
        ({
            let e = dispatched(d, candidates, routes, free, now);
            e.taken.len() <= free || e.taken.len() == 0
        }),
    decreases candidates.len(),
{
    if candidates.len() > 0 {
        lemma_pass_respects_the_pool(d, candidates.drop_last(), routes, free, now);
    }
}

} // verus!
