use vstd::prelude::*;
use crate::action_store::{
    distinct_ids, entry, has_id, is_due_unleased, lease_is_live, lease_result,
    lemma_open_count_update, lemma_update_entry, open_count, position, selection,
    settle_result, settled, views, well_formed, ActionStore, Query, Settlement,
};
use crate::config::{batch_limit, Config};
use crate::database::{Connection, Database};
use crate::dispatch::{
    among, assigned, carried_on, find_actions, found_by_poll, held,
    lemma_carried_on_is_transitive, lemma_idle_pass_means_nothing_due, lemma_pass_only_grows,
    lemma_poll_outcome, missing_executor_message, moved_on, orderly, polled, reported_error,
    sound, start, Batch, Dispatch, Stop, EXECUTION_TIMEOUT_SECONDS, LEASE_SECONDS,
};
use crate::domain_actions::{is_terminal, DomainAction, DomainActionTypes, DomainActionView};
use crate::errors::{DatabaseError, DomainActionError, ErrorCode};
use crate::lease_rules::lease_touches_one_action;
use crate::routing::{DomainActionExecutor, DomainActionRouter, ExecutionOutcome, OutcomeView};

verus! {

/// The store once the outcome of an execution has been recorded on the
/// action: done after a success, failed with the executor's text after a
/// failure it reports, and untouched after a timeout, so that the action
/// stays busy until its lease runs out. An action that has reached a
/// terminal state, and a store that does not hold the action, stay as they
/// are.
pub open spec fn after_outcome(
    s: Seq<DomainActionView>,
    id: u128,
    outcome: OutcomeView,
    now: i64,
) -> Seq<DomainActionView> {
    match outcome {
        OutcomeView::Success => match settle_result(s, id, Settlement::Success, now) {
            Ok(t) => t,
            Err(_) => s,
        },
        OutcomeView::Failure(message) => match settle_result(
            s,
            id,
            Settlement::Errored { message },
            now,
        ) {
            Ok(t) => t,
            Err(_) => s,
        },
        OutcomeView::TimedOut => s,
    }
}

/// The outcomes of a list of executions, each with the id of its action.
pub open spec fn outcomes(executed: Seq<(u128, ExecutionOutcome)>) -> Seq<(u128, OutcomeView)> {
    executed.map_values(|e: (u128, ExecutionOutcome)| (e.0, e.1@))
}

/// The store once the outcomes of a list of executions have been recorded,
/// one after the other.
pub open spec fn after_outcomes(
    s: Seq<DomainActionView>,
    executed: Seq<(u128, OutcomeView)>,
    now: i64,
) -> Seq<DomainActionView>
    decreases executed.len(),
{
    if executed.len() == 0 {
        s
    } else {
        after_outcome(
            after_outcomes(s, executed.drop_last(), now),
            executed.last().0,
            executed.last().1,
            now,
        )
    }
}

/// Recording an outcome opens no action to a lease.
pub proof fn lemma_outcome_opens_nothing(
    s: Seq<DomainActionView>,
    id: u128,
    outcome: OutcomeView,
    now: i64,
)
    ensures
        open_count(after_outcome(s, id, outcome, now), now) <= open_count(s, now),
        after_outcome(s, id, outcome, now).len() == s.len(),
{
    if has_id(s, id) && !is_terminal(entry(s, id).status) {
        let i = position(s, id);
        match outcome {
            OutcomeView::Success => {
                lemma_open_count_update(s, i, settled(s[i], Settlement::Success, now), now);
            },
            OutcomeView::Failure(message) => {
                lemma_open_count_update(
                    s,
                    i,
                    settled(s[i], Settlement::Errored { message }, now),
                    now,
                );
            },
            OutcomeView::TimedOut => {},
        }
    }
}

/// Records the outcome of an execution on the action: see `after_outcome`.
/// Refused with `NoResults` where the store does not hold the action and
/// the outcome would have been recorded.
pub fn settle(
    store: &mut ActionStore,
    id: u128,
    outcome: &ExecutionOutcome,
    now: i64,
) -> (recorded: Result<(), DatabaseError>)
    requires
        old(store).wf(),
    ensures
        final(store).wf(),
        final(store)@ == after_outcome(old(store)@, id, outcome@, now),
        recorded is Ok <==> (has_id(old(store)@, id) || outcome@ is TimedOut),
        recorded is Err ==> recorded.unwrap_err().error_code == ErrorCode::NoResults,
{
    match outcome {
        ExecutionOutcome::Success => store.mark_success(id, now),
        ExecutionOutcome::Failure(message) => store.mark_errored(id, message.clone(), now),
        ExecutionOutcome::TimedOut => Ok(()),
    }
}

/// Ends one execution: records its outcome on the action, as `settle`
/// does, and gives the connection that was the executor's back to the pool.
/// A dispatcher that runs the executions of a batch side by side calls this
/// once for each of them, as they end.
pub fn complete(
    database: &mut Database,
    id: u128,
    connection: Connection,
    outcome: &ExecutionOutcome,
    now: i64,
) -> (recorded: Result<(), DatabaseError>)
    requires
        old(database).wf(),
    ensures
        final(database).wf(),
        final(database).actions@ == after_outcome(old(database).actions@, id, outcome@, now),
        final(database).domain_events == old(database).domain_events,
        final(database).connection_pool.capacity() == old(database).connection_pool.capacity(),
        final(database).connection_pool.in_use() == if old(database).connection_pool.in_use()
            > 0 {
            old(database).connection_pool.in_use() - 1
        } else {
            0
        },
        recorded is Ok <==> (has_id(old(database).actions@, id) || outcome@ is TimedOut),
        recorded is Err ==> recorded.unwrap_err().error_code == ErrorCode::NoResults,
{
    let recorded = settle(&mut database.actions, id, outcome, now);
    database.release(connection);
    recorded
}

/// The top of a turn of the loop that dispatches actions, for a dispatcher
/// that runs the executions side by side. If the loop was asked to stop,
/// nothing is done and the loop ends. Otherwise the store is polled and the
/// actions found are leased at `now`, as `find_actions` does with the limit
/// that the pool calls for; the batch is handed out to be executed, each
/// execution to be ended with `complete`; and the step says how the loop
/// goes on without waiting for them: see `step_after`.
pub fn begin_pass<'a, E>(
    config: &Config,
    database: &mut Database,
    router: &'a DomainActionRouter<E>,
    interval: u64,
    stop_requested: bool,
    now: i64,
) -> (turn: (LoopStep, Option<Batch<'a, E>>))
    requires
        old(database).wf(),
        router.wf(),
        now + LEASE_SECONDS <= i64::MAX,
    ensures
        final(database).wf(),
        final(database).domain_events == old(database).domain_events,
        final(database).connection_pool.capacity() == old(database).connection_pool.capacity(),
        stop_requested ==> turn.0 == LoopStep::Stopped && turn.1 is None && *final(database)
            == *old(database),
        !stop_requested ==> {
            let d = polled(
                old(database).actions@,
                router@.dom(),
                batch_limit(config.connection_pool.max) as usize,
                old(database).connection_pool.capacity(),
                old(database).connection_pool.in_use(),
                now,
            );
            let found = found_by_poll(
                old(database).actions@,
                batch_limit(config.connection_pool.max) as usize,
                old(database).connection_pool.capacity(),
                old(database).connection_pool.in_use(),
                now,
            );
            &&& turn.1 matches Some(batch)
            &&& batch.is_outcome_of(d, router@)
            &&& batch.found == found
            &&& final(database).actions@ == d.store
            &&& final(database).connection_pool.in_use() == old(database).connection_pool.in_use()
                + batch.assignments@.len()
            &&& sound(d, old(database).actions@, now)
            &&& orderly(d, old(database).actions@, now)
            &&& turn.0 == step_after(reported_error(d), found, interval)
        },
{
    if stop_requested {
        return (LoopStep::Stopped, None);
    }
    let limit = config.connection_pool.dispatch_limit();
    let batch = find_actions(database, router, limit, now);
    let step = next_step(batch.error(), batch.found, interval);
    (step, Some(batch))
}

/// What one dispatch pass has done.
pub struct PassReport {
    /// How many actions were due and held by no worker when the pass
    /// polled the store, up to the limit of the pass.
    pub found: usize,
    /// The actions that were executed, in the order of their execution,
    /// each with the outcome that was recorded.
    pub executed: Vec<(u128, ExecutionOutcome)>,
    /// The actions that were left to the worker that holds them.
    pub skipped: Vec<u128>,
    /// The actions that were marked as failed because no executor is
    /// registered for their type.
    pub unroutable: Vec<DomainAction>,
    /// Why the pass took on no further action, if that is so.
    pub stopped: Option<Stop>,
    /// The error the pass reports, if any.
    pub error: Option<DomainActionError>,
}

/// The dispatcher: it polls the store for actions that are due, leases
/// them, has them executed and records what came of it.
pub struct DomainActionMonitor<E> {
    pub config: Config,
    pub database: Database,
    pub router: DomainActionRouter<E>,
    /// For how many seconds the dispatcher sleeps when it has found nothing
    /// to do.
    pub interval: u64,
}

/// What the loop that dispatches actions does next.
#[derive(Clone, Copy, Debug, PartialEq, Eq, Structural)]
pub enum LoopStep {
    /// The loop was asked to stop and ends.
    Stopped,
    /// The store has failed the pass and the loop ends with its error.
    Failed(DomainActionError),
    /// There was nothing to do: sleep for that many seconds, then poll
    /// again.
    Sleep(u64),
    /// There was work: poll again at once.
    Again,
}

/// What the loop does after a pass. It ends only where the store has failed
/// the pass. An action without executor does not end it: that action is
/// marked as failed, the error is in the report of the pass, and the loop
/// goes on as after any other pass. It sleeps after a pass that found
/// nothing, and goes on at once after a pass that found work.
pub open spec fn step_after(
    error: Option<DomainActionError>,
    found: nat,
    interval: u64,
) -> LoopStep {
    match error {
        Some(DomainActionError::Database(e)) => LoopStep::Failed(DomainActionError::Database(e)),
        _ => if found == 0 {
            LoopStep::Sleep(interval)
        } else {
            LoopStep::Again
        },
    }
}

/// What the loop does after a pass that reports `error` and has found
/// `found` actions: see `step_after`.
pub fn next_step(error: Option<DomainActionError>, found: usize, interval: u64) -> (next: LoopStep)
    ensures
        next == step_after(error, found as nat, interval),
{
    match error {
        Some(DomainActionError::Database(e)) => LoopStep::Failed(DomainActionError::Database(e)),
        _ => {
            if found == 0 {
                LoopStep::Sleep(interval)
            } else {
                LoopStep::Again
            }
        },
    }
}

/// The action `id` is in the hands of a pass at `now`: the store `s` held it
/// due and free, and the store `t` holds it leased until
/// `now + LEASE_SECONDS`, busy or recorded as done or as failed.
pub open spec fn in_hand(s: Seq<DomainActionView>, t: Seq<DomainActionView>, id: u128, now: i64) -> bool {
    &&& has_id(s, id)
    &&& is_due_unleased(entry(s, id), now)
    &&& has_id(t, id)
    &&& entry(t, id).busy_until == Some((now + LEASE_SECONDS) as i64)
    &&& (entry(t, id).status is Busy || entry(t, id).status is Success || entry(t, id).status
        is Errored)
}

/// Recording the outcomes of executions of actions that are in the hands
/// of the pass moves those actions on and leaves the others as they were.
pub proof fn lemma_outcomes_carry_on(
    s: Seq<DomainActionView>,
    t: Seq<DomainActionView>,
    executed: Seq<(u128, OutcomeView)>,
    now: i64,
)
    requires
        distinct_ids(t),
        carried_on(s, t, now),
        forall|k: int| 0 <= k < executed.len() ==> in_hand(s, t, (#[trigger] executed[k]).0, now),
    ensures
        distinct_ids(after_outcomes(t, executed, now)),
        carried_on(s, after_outcomes(t, executed, now), now),
        forall|id: u128|
            in_hand(s, t, id, now) ==> in_hand(s, after_outcomes(t, executed, now), id, now),
    decreases executed.len(),
{
    if executed.len() > 0 {
        let rest = executed.drop_last();
        let id = executed.last().0;
        let outcome = executed.last().1;
        assert forall|k: int| 0 <= k < rest.len() implies in_hand(
            s,
            t,
            (#[trigger] rest[k]).0,
            now,
        ) by {
            assert(rest[k] == executed[k]);
        }
        lemma_outcomes_carry_on(s, t, rest, now);
        let u = after_outcomes(t, rest, now);
        let v = after_outcome(u, id, outcome, now);
        assert(after_outcomes(t, executed, now) == v);
        assert(in_hand(s, t, executed[executed.len() - 1].0, now));
        assert(in_hand(s, u, id, now));
        if v != u {
            let i = position(u, id);
            let how = match outcome {
                OutcomeView::Failure(message) => Settlement::Errored { message },
                _ => Settlement::Success,
            };
            let b = settled(u[i], how, now);
            assert(v == u.update(i, b));
            lemma_update_entry(u, i, b);
            assert forall|other: u128|
                #![trigger has_id(v, other)]
                #![trigger entry(v, other)]
                (has_id(v, other) <==> has_id(s, other)) && (has_id(s, other) ==> moved_on(
                    entry(s, other),
                    entry(v, other),
                    now,
                )) by {
                assert(has_id(u, other) <==> has_id(s, other));
                if has_id(s, other) {
                    assert(moved_on(entry(s, other), entry(u, other), now));
                }
            }
            assert forall|other: u128| in_hand(s, t, other, now) implies in_hand(
                s,
                v,
                other,
                now,
            ) by {
                assert(in_hand(s, u, other, now));
            }
        }
    }
}

/// The outcome of the execution of the action `id` by a pass at `now`
/// stands recorded in the store `t`: the action is done after a success,
/// failed with the executor's text after a failure it reports, and still
/// busy after a timeout, in each case under the lease that the pass took.
pub open spec fn recorded(t: Seq<DomainActionView>, id: u128, outcome: OutcomeView, now: i64) -> bool {
    &&& has_id(t, id)
    &&& entry(t, id).busy_until == Some((now + LEASE_SECONDS) as i64)
    &&& match outcome {
        OutcomeView::Success => entry(t, id).status is Success,
        OutcomeView::Failure(message) => entry(t, id).status is Errored && entry(t, id).last_error
            == Some(message),
        OutcomeView::TimedOut => entry(t, id).status is Busy,
    }
}

/// One of the executions is that of the action `id`.
pub open spec fn executed_among(executed: Seq<(u128, OutcomeView)>, id: u128) -> bool {
    exists|j: int| 0 <= j < executed.len() && (#[trigger] executed[j]).0 == id
}

/// Where the actions that were executed are held by the leases of the pass,
/// and no two executions are of the same action, each outcome stands
/// recorded once all are recorded, and the other actions are as they were.
pub proof fn lemma_outcomes_are_recorded(
    t: Seq<DomainActionView>,
    executed: Seq<(u128, OutcomeView)>,
    now: i64,
)
    requires
        distinct_ids(t),
        forall|j: int| 0 <= j < executed.len() ==> held(t, (#[trigger] executed[j]).0, now),
        forall|i: int, j: int|
            0 <= i < j < executed.len() ==> (#[trigger] executed[i]).0 != (#[trigger] executed[j]).0,
    ensures
        distinct_ids(after_outcomes(t, executed, now)),
        forall|j: int|
            0 <= j < executed.len() ==> recorded(
                after_outcomes(t, executed, now),
                (#[trigger] executed[j]).0,
                executed[j].1,
                now,
            ),
        forall|id: u128|
            #![trigger has_id(after_outcomes(t, executed, now), id)]
            #![trigger entry(after_outcomes(t, executed, now), id)]
            has_id(t, id) && !executed_among(executed, id) ==> has_id(
                after_outcomes(t, executed, now),
                id,
            ) && entry(after_outcomes(t, executed, now), id) == entry(t, id),
    decreases executed.len(),
{
    let v = after_outcomes(t, executed, now);
    if executed.len() > 0 {
        let rest = executed.drop_last();
        let n = rest.len() as int;
        let id = executed.last().0;
        let outcome = executed.last().1;
        assert forall|j: int| 0 <= j < rest.len() implies held(t, (#[trigger] rest[j]).0, now) by {
            assert(rest[j] == executed[j]);
        }
        assert forall|i: int, j: int| 0 <= i < j < rest.len() implies (#[trigger] rest[i]).0 != (
        #[trigger] rest[j]).0 by {
            assert(rest[i] == executed[i] && rest[j] == executed[j]);
        }
        lemma_outcomes_are_recorded(t, rest, now);
        let u = after_outcomes(t, rest, now);
        assert(v == after_outcome(u, id, outcome, now));
        assert(executed[n].0 == id);
        assert(held(t, id, now));
        assert(!executed_among(rest, id)) by {
            if executed_among(rest, id) {
                let j = choose|j: int| 0 <= j < rest.len() && (#[trigger] rest[j]).0 == id;
                assert(executed[j].0 != executed[n].0);
            }
        }
        assert(has_id(u, id) && entry(u, id) == entry(t, id));
        let i = position(u, id);
        if outcome is TimedOut {
            assert(v == u);
        } else {
            let how = match outcome {
                OutcomeView::Failure(message) => Settlement::Errored { message },
                _ => Settlement::Success,
            };
            let b = settled(u[i], how, now);
            assert(v == u.update(i, b));
            lemma_update_entry(u, i, b);
        }
        assert forall|j: int| 0 <= j < executed.len() implies recorded(
            v,
            (#[trigger] executed[j]).0,
            executed[j].1,
            now,
        ) by {
            if j < n {
                assert(rest[j] == executed[j]);
                assert(recorded(u, rest[j].0, rest[j].1, now));
                assert(executed[j].0 != executed[n].0);
            }
        }
        assert forall|other: u128|
            #![trigger has_id(v, other)]
            #![trigger entry(v, other)]
            has_id(t, other) && !executed_among(executed, other) implies has_id(v, other) && entry(
                v,
                other,
            ) == entry(t, other) by {
            assert(other != id) by {
                if other == id {
                    assert(executed[n].0 == other);
                }
            }
            assert(!executed_among(rest, other)) by {
                if executed_among(rest, other) {
                    let j = choose|j: int| 0 <= j < rest.len() && (#[trigger] rest[j]).0 == other;
                    assert(executed[j].0 == other);
                }
            }
            assert(has_id(u, other) && entry(u, other) == entry(t, other));
        }
    }
}

/// What stands recorded in a store stands recorded in what passes at `now`
/// make of it: an action that a pass has leased is not due and free again
/// at `now`.
pub proof fn lemma_recorded_stays(
    s: Seq<DomainActionView>,
    t: Seq<DomainActionView>,
    id: u128,
    outcome: OutcomeView,
    now: i64,
)
    requires
        recorded(s, id, outcome, now),
        carried_on(s, t, now),
        now + LEASE_SECONDS <= i64::MAX,
    ensures
        recorded(t, id, outcome, now),
{
    assert(has_id(t, id));
    assert(moved_on(entry(s, id), entry(t, id), now));
}

/// What a pass at `now` records of its executions, whatever the executors
/// return: each outcome stands recorded in the store the pass leaves.
pub proof fn lemma_pass_records(
    s: Seq<DomainActionView>,
    routes: Set<DomainActionTypes>,
    limit: usize,
    capacity: nat,
    in_use: nat,
    executed: Seq<(u128, OutcomeView)>,
    now: i64,
)
    requires
        well_formed(s),
        now + LEASE_SECONDS <= i64::MAX,
        executed.len() <= polled(s, routes, limit, capacity, in_use, now).taken.len(),
        forall|k: int|
            0 <= k < executed.len() ==> (#[trigger] executed[k]).0 == polled(
                s,
                routes,
                limit,
                capacity,
                in_use,
                now,
            ).taken[k].id,
    ensures
        forall|j: int|
            0 <= j < executed.len() ==> recorded(
                after_outcomes(polled(s, routes, limit, capacity, in_use, now).store, executed, now),
                (#[trigger] executed[j]).0,
                executed[j].1,
                now,
            ),
{
    let d = polled(s, routes, limit, capacity, in_use, now);
    lemma_poll_outcome(s, routes, limit, capacity, in_use, now);
    assert forall|j: int| 0 <= j < executed.len() implies held(
        d.store,
        (#[trigger] executed[j]).0,
        now,
    ) by {
        assert(held(d.store, d.taken[j].id, now));
    }
    assert forall|i: int, j: int| 0 <= i < j < executed.len() implies (#[trigger] executed[i]).0 != (
    #[trigger] executed[j]).0 by {
        assert(d.taken[i].id != d.taken[j].id);
    }
    lemma_outcomes_are_recorded(d.store, executed, now);
}

/// The action `id` stands in the store as failed for want of an executor.
pub open spec fn marked(t: Seq<DomainActionView>, id: u128) -> bool {
    &&& has_id(t, id)
    &&& entry(t, id).status is Errored
    &&& entry(t, id).last_error == Some(missing_executor_message())
}

/// What is marked as failed stays so in what passes at `now` make of the
/// store.
pub proof fn lemma_marked_stays(
    s: Seq<DomainActionView>,
    t: Seq<DomainActionView>,
    id: u128,
    now: i64,
)
    requires
        marked(s, id),
        carried_on(s, t, now),
    ensures
        marked(t, id),
{
    assert(has_id(t, id));
    assert(moved_on(entry(s, id), entry(t, id), now));
}

/// Every action that a pass at `now` has marked as failed for want of an
/// executor stands so in the store the pass leaves, whatever the executors
/// return.
pub proof fn lemma_pass_marks(
    s: Seq<DomainActionView>,
    routes: Set<DomainActionTypes>,
    limit: usize,
    capacity: nat,
    in_use: nat,
    executed: Seq<(u128, OutcomeView)>,
    now: i64,
)
    requires
        well_formed(s),
        now + LEASE_SECONDS <= i64::MAX,
        executed.len() <= polled(s, routes, limit, capacity, in_use, now).taken.len(),
        forall|k: int|
            0 <= k < executed.len() ==> (#[trigger] executed[k]).0 == polled(
                s,
                routes,
                limit,
                capacity,
                in_use,
                now,
            ).taken[k].id,
    ensures
        forall|j: int|
            0 <= j < polled(s, routes, limit, capacity, in_use, now).unroutable.len() ==> marked(
                after_outcomes(polled(s, routes, limit, capacity, in_use, now).store, executed, now),
                (#[trigger] polled(s, routes, limit, capacity, in_use, now).unroutable[j]).id,
            ),
{
    let d = polled(s, routes, limit, capacity, in_use, now);
    lemma_poll_outcome(s, routes, limit, capacity, in_use, now);
    assert forall|j: int| 0 <= j < executed.len() implies held(
        d.store,
        (#[trigger] executed[j]).0,
        now,
    ) by {
        assert(held(d.store, d.taken[j].id, now));
    }
    assert forall|i: int, j: int| 0 <= i < j < executed.len() implies (#[trigger] executed[i]).0 != (
    #[trigger] executed[j]).0 by {
        assert(d.taken[i].id != d.taken[j].id);
    }
    lemma_outcomes_are_recorded(d.store, executed, now);
    let t = after_outcomes(d.store, executed, now);
    assert forall|j: int| 0 <= j < d.unroutable.len() implies marked(
        t,
        (#[trigger] d.unroutable[j]).id,
    ) by {
        let c = d.unroutable[j];
        assert(!among(d.taken, c.id));
        if executed_among(executed, c.id) {
            let x = choose|x: int| 0 <= x < executed.len() && (#[trigger] executed[x]).0 == c.id;
            assert(d.taken[x].id == c.id);
        }
        assert(has_id(t, c.id) && entry(t, c.id) == entry(d.store, c.id));
    }
}

/// What a pass at `now` makes of a store, whatever the executors return:
/// the store holds the same actions, each as it was or moved on.
pub proof fn lemma_pass_carries_on(
    s: Seq<DomainActionView>,
    routes: Set<DomainActionTypes>,
    limit: usize,
    capacity: nat,
    in_use: nat,
    executed: Seq<(u128, OutcomeView)>,
    now: i64,
)
    requires
        well_formed(s),
        now + LEASE_SECONDS <= i64::MAX,
        executed.len() <= polled(s, routes, limit, capacity, in_use, now).taken.len(),
        forall|k: int|
            0 <= k < executed.len() ==> (#[trigger] executed[k]).0 == polled(
                s,
                routes,
                limit,
                capacity,
                in_use,
                now,
            ).taken[k].id,
    ensures
        carried_on(
            s,
            after_outcomes(polled(s, routes, limit, capacity, in_use, now).store, executed, now),
            now,
        ),
{
    let d = polled(s, routes, limit, capacity, in_use, now);
    lemma_poll_outcome(s, routes, limit, capacity, in_use, now);
    assert forall|k: int| 0 <= k < executed.len() implies in_hand(
        s,
        d.store,
        (#[trigger] executed[k]).0,
        now,
    ) by {
        let c = d.taken[k];
        assert(held(d.store, c.id, now));
    }
    lemma_outcomes_carry_on(s, d.store, executed, now);
}

impl<E: DomainActionExecutor> DomainActionMonitor<E> {
    /// The invariant of the dispatcher: that of its database and its router.
    pub open spec fn wf(&self) -> bool {
        self.database.wf() && self.router.wf()
    }

    /// Where a pass at `now` stands after its first stage: see `polled`.
    pub open spec fn planned(&self, now: i64) -> Dispatch {
        polled(
            self.database.actions@,
            self.router@.dom(),
            batch_limit(self.config.connection_pool.max) as usize,
            self.database.connection_pool.capacity(),
            self.database.connection_pool.in_use(),
            now,
        )
    }

    /// How many actions the poll of a pass at `now` finds.
    pub open spec fn due(&self, now: i64) -> nat {
        found_by_poll(
            self.database.actions@,
            batch_limit(self.config.connection_pool.max) as usize,
            self.database.connection_pool.capacity(),
            self.database.connection_pool.in_use(),
            now,
        )
    }

    /// Where a pass at `now` of this dispatcher over the store `s` stands
    /// after its first stage: see `polled`.
    pub open spec fn planned_from(&self, s: Seq<DomainActionView>, now: i64) -> Dispatch {
        polled(
            s,
            self.router@.dom(),
            batch_limit(self.config.connection_pool.max) as usize,
            self.database.connection_pool.capacity(),
            self.database.connection_pool.in_use(),
            now,
        )
    }

    /// The report tells of a pass at `now` of this dispatcher over the store
    /// `s`: it lists what the first stage of the pass came to, and an
    /// outcome for each action that was taken on, in the order in which they
    /// were taken on; none where the store has failed the pass.
    pub open spec fn tells_of(&self, s: Seq<DomainActionView>, report: PassReport, now: i64) -> bool {
        let d = self.planned_from(s, now);
        &&& report.found == found_by_poll(
            s,
            batch_limit(self.config.connection_pool.max) as usize,
            self.database.connection_pool.capacity(),
            self.database.connection_pool.in_use(),
            now,
        )
        &&& report.stopped == d.stopped
        &&& report.skipped@ == d.skipped
        &&& views(report.unroutable@) == d.unroutable
        &&& report.error == reported_error(d)
        &&& if d.stopped matches Some(Stop::Failed(_)) {
            report.executed@.len() == 0
        } else {
            &&& report.executed@.len() == d.taken.len()
            &&& forall|k: int|
                0 <= k < d.taken.len() ==> (#[trigger] report.executed@[k]).0 == d.taken[k].id
        }
    }

    /// The store after the passes at `now` of which the reports tell, made
    /// one after the other from the store of this dispatcher: each pass
    /// leaves the store as its first stage leaves it, with the outcomes
    /// that its report lists recorded one after the other.
    pub open spec fn store_after(&self, reports: Seq<PassReport>, now: i64) -> Seq<DomainActionView>
        decreases reports.len(),
    {
        if reports.len() == 0 {
            self.database.actions@
        } else {
            after_outcomes(
                self.planned_from(self.store_after(reports.drop_last(), now), now).store,
                outcomes(reports.last().executed@),
                now,
            )
        }
    }

    /// `after` is this dispatcher after a pass at `now` of which `report`
    /// tells. The report lists what the first stage of the pass came to. A
    /// pass that the store has failed has executed nothing; otherwise every
    /// action that was taken on was executed, in the order in which they
    /// were taken on, and the store is as the first stage left it, with the
    /// outcomes that the report lists recorded one after the other. Each of
    /// these outcomes stands recorded on its action: see `recorded`. Each
    /// action without executor stands marked as failed: see `marked`. The
    /// store holds the same actions, each as it was or moved on: see
    /// `carried_on`. Nothing but the store of actions has changed, and every
    /// connection is back in the pool.
    pub open spec fn passed(
        &self,
        after: DomainActionMonitor<E>,
        report: PassReport,
        now: i64,
    ) -> bool {
        let d = self.planned(now);
        &&& after.wf()
        &&& after.router == self.router
        &&& after.config == self.config
        &&& after.interval == self.interval
        &&& after.database.domain_events == self.database.domain_events
        &&& after.database.connection_pool.capacity() == self.database.connection_pool.capacity()
        &&& after.database.connection_pool.in_use() == self.database.connection_pool.in_use()
        &&& sound(d, self.database.actions@, now)
        &&& report.found == self.due(now)
        &&& report.stopped == d.stopped
        &&& report.skipped@ == d.skipped
        &&& views(report.unroutable@) == d.unroutable
        &&& report.error == reported_error(d)
        &&& after.database.actions@ == after_outcomes(d.store, outcomes(report.executed@), now)
        &&& after.database.actions@.len() == self.database.actions@.len()
        &&& carried_on(self.database.actions@, after.database.actions@, now)
        &&& forall|j: int|
            0 <= j < report.executed@.len() ==> recorded(
                after.database.actions@,
                (#[trigger] report.executed@[j]).0,
                report.executed@[j].1@,
                now,
            )
        &&& forall|j: int|
            0 <= j < report.unroutable@.len() ==> marked(
                after.database.actions@,
                (#[trigger] report.unroutable@[j]).id,
            )
        &&& open_count(after.database.actions@, now) + report.executed@.len()
            + report.unroutable@.len() <= open_count(self.database.actions@, now)
        &&& if d.stopped matches Some(Stop::Failed(_)) {
            report.executed@.len() == 0
        } else {
            &&& report.executed@.len() == d.taken.len()
            &&& forall|k: int|
                0 <= k < d.taken.len() ==> (#[trigger] report.executed@[k]).0 == d.taken[k].id
        }
    }

    /// A dispatcher for the database, with the executors of the router,
    /// that sleeps `poll_period_in_secs` seconds when it has nothing to do.
    pub fn new(
        conf: Config,
        database: Database,
        router: DomainActionRouter<E>,
        poll_period_in_secs: u64,
    ) -> (monitor: DomainActionMonitor<E>)
        ensures
            monitor.config == conf,
            monitor.database == database,
            monitor.router == router,
            monitor.interval == poll_period_in_secs,
    {
        DomainActionMonitor { config: conf, database, router, interval: poll_period_in_secs }
    }

    /// One dispatch pass at store time `now`. The pass polls for the actions
    /// that are due and that no worker holds, no more of them than half the
    /// pool's connections and at least one; leases each for `LEASE_SECONDS`;
    /// has each executed by the executor of its type, which is told to give
    /// up after `EXECUTION_TIMEOUT_SECONDS`; and records each outcome.
    ///
    /// The executions run one after the other, all under leases taken at
    /// `now`: an execution that waits for one before it to end starts with
    /// that much less of its lease left. A dispatcher that is to give up on
    /// every execution within its lease runs them side by side, with
    /// `begin_pass` and `complete`.
    ///
    /// An action whose type has no executor is marked as failed. The other
    /// actions of the batch are executed all the same, and the pass then
    /// reports a configuration error. If the dispatcher gets no connection
    /// of its own, or the store refuses a lease for another reason than a
    /// lost race, nothing is executed and the pass reports the store's
    /// error. All connections are back in the pool when the pass returns.
    pub fn run_pass(&mut self, now: i64) -> (report: PassReport)
        requires
            old(self).wf(),
            now + LEASE_SECONDS <= i64::MAX,
        ensures
            old(self).passed(*final(self), report, now),
    {
        let limit = self.config.connection_pool.dispatch_limit();
        let ghost router = self.router;
        let ghost config = self.config;
        let ghost interval = self.interval;
        let ghost before = self.database.actions@;
        let ghost in_use = self.database.connection_pool.in_use();
        let ghost capacity = self.database.connection_pool.capacity();
        let ghost d = self.planned(now);
        let batch = find_actions(&mut self.database, &self.router, limit, now);
        let error = batch.error();
        let found = batch.found;
        let stopped = batch.stopped;
        let skipped = batch.skipped;
        let unroutable = batch.unroutable;
        let mut assignments = batch.assignments;
        let mut executed: Vec<(u128, ExecutionOutcome)> = Vec::new();
        let ghost failed = d.stopped matches Some(Stop::Failed(_));
        let ghost taken = assigned(assignments@);
        proof {
            assert(outcomes(executed@) =~= Seq::<(u128, OutcomeView)>::empty());
            assert(taken.skip(0) =~= taken);
            assert(open_count(d.store, now) + d.taken.len() + d.unroutable.len() == open_count(
                before,
                now,
            ));
            assert(assignments@.len() <= d.taken.len());
        }
        while assignments.len() > 0
            invariant
                self.database.wf(),
                self.router == router,
                self.config == config,
                self.interval == interval,
                self.database.domain_events == old(self).database.domain_events,
                self.database.connection_pool.capacity() == capacity,
                self.database.connection_pool.in_use() == in_use + assignments@.len(),
                executed@.len() + assignments@.len() == taken.len(),
                assigned(assignments@) == taken.skip(executed@.len() as int),
                forall|k: int| 0 <= k < executed@.len() ==> (#[trigger] executed@[k]).0 == taken[k].id,
                self.database.actions@ == after_outcomes(d.store, outcomes(executed@), now),
                self.database.actions@.len() == d.store.len(),
                open_count(self.database.actions@, now) <= open_count(d.store, now),
            decreases assignments@.len(),
        {
            let ghost waiting = assignments@;
            let ghost done = executed@;
            let ghost store_before = self.database.actions@;
            let assignment = assignments.remove(0);
            let (executor, action, connection) = assignment;
            proof {
                assert(action@ == assigned(waiting)[0]);
                assert(action@ == taken[done.len() as int]);
                assert forall|k: int| 0 <= k < assignments@.len() implies assigned(assignments@)[k]
                    == taken.skip(done.len() as int + 1)[k] by {
                    assert(assignments@[k] == waiting[k + 1]);
                    assert(assigned(waiting)[k + 1] == taken.skip(done.len() as int)[k + 1]);
                }
                assert(assigned(assignments@) =~= taken.skip(done.len() as int + 1));
            }
            let outcome = executor.execute(&action, &connection, EXECUTION_TIMEOUT_SECONDS);
            let _ = complete(&mut self.database, action.id, connection, &outcome, now);
            let kept = outcome.clone();
            executed.push((action.id, kept));
            proof {
                let listed = outcomes(executed@);
                assert(listed =~= outcomes(done).push((action.id, outcome@)));
                assert(listed.drop_last() =~= outcomes(done));
                assert(listed.last() == (action.id, outcome@));
                lemma_outcome_opens_nothing(store_before, action.id, outcome@, now);
            }
        }
        proof {
            lemma_pass_carries_on(
                before,
                self.router@.dom(),
                limit,
                capacity,
                in_use,
                outcomes(executed@),
                now,
            );
            lemma_pass_records(
                before,
                self.router@.dom(),
                limit,
                capacity,
                in_use,
                outcomes(executed@),
                now,
            );
            assert forall|j: int| 0 <= j < executed@.len() implies recorded(
                self.database.actions@,
                (#[trigger] executed@[j]).0,
                executed@[j].1@,
                now,
            ) by {
                assert(outcomes(executed@)[j] == (executed@[j].0, executed@[j].1@));
            }
            lemma_pass_marks(
                before,
                self.router@.dom(),
                limit,
                capacity,
                in_use,
                outcomes(executed@),
                now,
            );
            assert forall|j: int| 0 <= j < unroutable@.len() implies marked(
                self.database.actions@,
                (#[trigger] unroutable@[j]).id,
            ) by {
                assert(views(unroutable@)[j] == unroutable@[j]@);
                assert(d.unroutable[j].id == unroutable@[j].id);
            }
        }
        PassReport { found, executed, skipped, unroutable, stopped, error }
    }

    /// Runs dispatch passes at store time `now`, one after the other, until
    /// a pass executes nothing: because no action is due any more, or
    /// because the pool has no connection for the next one. It neither
    /// sleeps nor waits. The first pass that reports an error ends the run
    /// with that error.
    ///
    /// The run ends well if the dispatcher gets a connection and every
    /// action that is due and free has an executor, whatever the executors
    /// return: the failure of an execution is recorded on the action and is
    /// never the error of the run. The run fails with `ConnectionError` only
    /// where the pool has no connection for the dispatcher, and then nothing
    /// is done; it fails with a configuration error only for the type of an
    /// action that has no executor, and then that action is marked as
    /// failed and the other actions of its pass have been executed.
    ///
    /// Whatever the outcome, the store holds the same actions as before,
    /// each as it was or moved on: see `carried_on`. Actions that were not
    /// due, that another worker holds or that had reached a terminal state
    /// are as they were.
    ///
    /// With the outcome come the reports of the passes that were made, in
    /// their order. Each tells of its pass over the store that the passes
    /// before it have left, and the store at the end is what these passes
    /// make of the store at the start: see `store_after`. Every pass but the
    /// last has executed something and reports no error; the last reports
    /// the error of the run, or has executed nothing. Every outcome that a
    /// report lists stands recorded on its action at the end, and every
    /// action that a report lists as without executor stands marked as
    /// failed: see `recorded` and `marked`.
    pub fn run_til_empty(&mut self, now: i64) -> (run: (
        Result<(), DomainActionError>,
        Vec<PassReport>,
    ))
        requires
            old(self).wf(),
            now + LEASE_SECONDS <= i64::MAX,
        ensures
            final(self).wf(),
            final(self).router == old(self).router,
            final(self).config == old(self).config,
            final(self).interval == old(self).interval,
            final(self).database.domain_events == old(self).database.domain_events,
            final(self).database.connection_pool.capacity() == old(
                self,
            ).database.connection_pool.capacity(),
            final(self).database.connection_pool.in_use() == old(
                self,
            ).database.connection_pool.in_use(),
            final(self).database.actions@.len() == old(self).database.actions@.len(),
            carried_on(old(self).database.actions@, final(self).database.actions@, now),
            open_count(final(self).database.actions@, now) <= open_count(
                old(self).database.actions@,
                now,
            ),
            (forall|k: int|
                0 <= k < old(self).database.actions@.len() && is_due_unleased(
                    #[trigger] old(self).database.actions@[k],
                    now,
                ) ==> old(self).router@.contains_key(
                    old(self).database.actions@[k].domain_action_type,
                )) && old(self).database.connection_pool.in_use() < old(
                self,
            ).database.connection_pool.capacity() ==> run.0 is Ok,
            run.0 matches Err(e) ==> {
                ||| {
                    &&& e matches DomainActionError::Configuration { action_type }
                    &&& !old(self).router@.contains_key(action_type)
                    &&& old(self).database.connection_pool.in_use() < old(
                        self,
                    ).database.connection_pool.capacity()
                    &&& exists|k: int|
                        0 <= k < old(self).database.actions@.len() && is_due_unleased(
                            #[trigger] old(self).database.actions@[k],
                            now,
                        ) && old(self).database.actions@[k].domain_action_type == action_type
                }
                ||| {
                    &&& e == DomainActionError::Database(
                        DatabaseError { error_code: ErrorCode::ConnectionError },
                    )
                    &&& old(self).database.connection_pool.in_use() >= old(
                        self,
                    ).database.connection_pool.capacity()
                    &&& final(self).database.actions@ == old(self).database.actions@
                }
            },
            run.0 is Ok ==> {
                ||| forall|k: int|
                    0 <= k < final(self).database.actions@.len() ==> !is_due_unleased(
                        #[trigger] final(self).database.actions@[k],
                        now,
                    )
                ||| old(self).database.connection_pool.capacity() - old(
                    self,
                ).database.connection_pool.in_use() <= 1
            },
            reported_error(old(self).planned(now)) matches Some(e) ==> run.0 == Err::<
                (),
                DomainActionError,
            >(e),
            run.1@.len() >= 1,
            final(self).database.actions@ == old(self).store_after(run.1@, now),
            forall|k: int|
                0 <= k < run.1@.len() ==> old(self).tells_of(
                    old(self).store_after(run.1@.take(k), now),
                    #[trigger] run.1@[k],
                    now,
                ),
            forall|k: int|
                0 <= k < run.1@.len() - 1 ==> (#[trigger] run.1@[k]).error is None
                    && run.1@[k].executed@.len() > 0,
            run.0 == match run.1@.last().error {
                Some(e) => Err::<(), DomainActionError>(e),
                None => Ok::<(), DomainActionError>(()),
            },
            run.1@.last().error is None ==> run.1@.last().executed@.len() == 0,
            forall|k: int, j: int|
                0 <= k < run.1@.len() && 0 <= j < run.1@[k].unroutable@.len() ==> marked(
                    final(self).database.actions@,
                    (#[trigger] run.1@[k].unroutable@[j]).id,
                ),
            forall|k: int, j: int|
                0 <= k < run.1@.len() && 0 <= j < run.1@[k].executed@.len() ==> recorded(
                    final(self).database.actions@,
                    (#[trigger] run.1@[k].executed@[j]).0,
                    run.1@[k].executed@[j].1@,
                    now,
                ),
            reported_error(old(self).planned(now)) is None && old(self).planned(now).taken.len()
                == 0 ==> run.0 is Ok && final(self).database.actions@ == old(
                self,
            ).database.actions@,
    {
        let ghost capacity = self.database.connection_pool.capacity();
        let ghost in_use = self.database.connection_pool.in_use();
        let ghost mut first = true;
        let ghost initial = self.database.actions@;
        let mut reports: Vec<PassReport> = Vec::new();
        loop
            invariant
                forall|k: int, j: int|
                    0 <= k < reports@.len() && 0 <= j < reports@[k].unroutable@.len() ==> marked(
                        self.database.actions@,
                        (#[trigger] reports@[k].unroutable@[j]).id,
                    ),
                forall|k: int, j: int|
                    0 <= k < reports@.len() && 0 <= j < reports@[k].executed@.len() ==> recorded(
                        self.database.actions@,
                        (#[trigger] reports@[k].executed@[j]).0,
                        reports@[k].executed@[j].1@,
                        now,
                    ),
                self.database.actions@ == old(self).store_after(reports@, now),
                forall|k: int|
                    0 <= k < reports@.len() ==> old(self).tells_of(
                        old(self).store_after(reports@.take(k), now),
                        #[trigger] reports@[k],
                        now,
                    ) && reports@[k].error is None && reports@[k].executed@.len() > 0,
                first ==> self.database.actions@ == old(self).database.actions@,
                !first ==> reported_error(old(self).planned(now)) is None && old(self).planned(
                    now,
                ).taken.len() > 0,
                self.wf(),
                now + LEASE_SECONDS <= i64::MAX,
                self.router == old(self).router,
                self.config == old(self).config,
                self.interval == old(self).interval,
                self.database.domain_events == old(self).database.domain_events,
                capacity == old(self).database.connection_pool.capacity(),
                in_use == old(self).database.connection_pool.in_use(),
                initial == old(self).database.actions@,
                well_formed(initial),
                self.database.connection_pool.capacity() == capacity,
                self.database.connection_pool.in_use() == in_use,
                self.database.actions@.len() == old(self).database.actions@.len(),
                carried_on(initial, self.database.actions@, now),
                open_count(self.database.actions@, now) <= open_count(
                    old(self).database.actions@,
                    now,
                ),
            decreases open_count(self.database.actions@, now),
        {
            let ghost planned = self.planned(now);
            let ghost store = self.database.actions@;
            let limit = self.config.connection_pool.dispatch_limit();
            let ghost listed = reports@;
            let report = self.run_pass(now);
            let error = report.error;
            let idle = report.executed.len() == 0;
            let ghost told = report;
            reports.push(report);
            proof {
                lemma_carried_on_is_transitive(initial, store, self.database.actions@, now);
                lemma_poll_outcome(store, self.router@.dom(), limit, capacity, in_use, now);
                assert(reports@.drop_last() =~= listed);
                assert(reports@.last() == told);
                assert(old(self).planned_from(store, now) == planned);
                assert(old(self).tells_of(store, told, now));
                assert forall|k: int| 0 <= k < reports@.len() implies old(self).tells_of(
                    old(self).store_after(reports@.take(k), now),
                    #[trigger] reports@[k],
                    now,
                ) by {
                    if k < listed.len() {
                        assert(reports@.take(k) =~= listed.take(k));
                        assert(reports@[k] == listed[k]);
                    } else {
                        assert(reports@.take(k) =~= listed);
                    }
                }
                assert forall|k: int| 0 <= k < reports@.len() - 1 implies (
                #[trigger] reports@[k]).error is None && reports@[k].executed@.len() > 0 by {
                    assert(reports@[k] == listed[k]);
                }
                assert forall|k: int, j: int|
                    0 <= k < reports@.len() && 0 <= j < reports@[k].unroutable@.len() implies marked(
                    self.database.actions@,
                    (#[trigger] reports@[k].unroutable@[j]).id,
                ) by {
                    if k < listed.len() {
                        assert(reports@[k] == listed[k]);
                        lemma_marked_stays(
                            store,
                            self.database.actions@,
                            listed[k].unroutable@[j].id,
                            now,
                        );
                    }
                }
                assert forall|k: int, j: int|
                    0 <= k < reports@.len() && 0 <= j < reports@[k].executed@.len() implies recorded(
                    self.database.actions@,
                    (#[trigger] reports@[k].executed@[j]).0,
                    reports@[k].executed@[j].1@,
                    now,
                ) by {
                    if k < listed.len() {
                        assert(reports@[k] == listed[k]);
                        lemma_recorded_stays(
                            store,
                            self.database.actions@,
                            listed[k].executed@[j].0,
                            listed[k].executed@[j].1@,
                            now,
                        );
                    }
                }
            }
            match error {
                Some(e) => {
                    proof {
                        if in_use < capacity {
                            let c = planned.unroutable[0];
                            assert(e == DomainActionError::Configuration {
                                action_type: c.domain_action_type,
                            });
                            assert(has_id(store, c.id) && entry(store, c.id) == c);
                            assert(moved_on(entry(initial, c.id), entry(store, c.id), now));
                            assert(entry(initial, c.id) == c);
                            let k = position(initial, c.id);
                            assert(initial[k] == c);
                        } else {
                            assert(outcomes(told.executed@) =~= Seq::<
                                (u128, OutcomeView),
                            >::empty());
                        }
                    }
                    return (Err(e), reports);
                },
                None => {},
            }
            if idle {
                proof {
                    assert(planned.unroutable.len() == 0);
                    assert(planned.taken.len() == 0);
                    assert(outcomes(told.executed@) =~= Seq::<(u128, OutcomeView)>::empty());
                    assert(self.database.actions@ == planned.store);
                    if in_use < capacity {
                        lemma_pass_only_grows(
                            start(store),
                            selection(store, Query::DueUnleased { now }, Some(limit)),
                            self.router@.dom(),
                            capacity - in_use - 1,
                            now,
                        );
                        if capacity - in_use - 1 > 0 {
                            lemma_idle_pass_means_nothing_due(
                                store,
                                limit,
                                self.router@.dom(),
                                capacity - in_use - 1,
                                now,
                            );
                        }
                    }
                }
                return (Ok(()), reports);
            }
            proof {
                first = false;
            }
        }
    }

    /// One turn of the loop that dispatches actions. If the loop was asked
    /// to stop, nothing is done. Otherwise one pass is run at store time
    /// `now`, and the step says how the loop goes on: see `step_after`.
    pub fn run_actions_step(&mut self, stop_requested: bool, now: i64) -> (next: (
        LoopStep,
        Option<PassReport>,
    ))
        requires
            old(self).wf(),
            now + LEASE_SECONDS <= i64::MAX,
        ensures
            final(self).wf(),
            stop_requested ==> next.0 == LoopStep::Stopped && next.1 is None && *final(self) == *old(
                self,
            ),
            !stop_requested ==> {
                &&& next.1 is Some
                &&& old(self).passed(*final(self), next.1.unwrap(), now)
                &&& next.0 == step_after(
                    next.1.unwrap().error,
                    next.1.unwrap().found as nat,
                    old(self).interval,
                )
            },
    {
        if stop_requested {
            return (LoopStep::Stopped, None);
        }
        let report = self.run_pass(now);
        let step = next_step(report.error, report.found, self.interval);
        (step, Some(report))
    }
}

/// The dispatcher gives up on an executor before the lease it took for the
/// action runs out.
pub proof fn dispatcher_gives_up_in_time()
    ensures
        EXECUTION_TIMEOUT_SECONDS < LEASE_SECONDS,
{
}

/// Timeout before lease expiry. Where the time allowed for an execution is
/// shorter than the lease, and the execution starts when the lease is
/// taken, an action whose executor hangs is still held at the moment the
/// dispatcher gives up on it: recording the timeout leaves the action busy,
/// no worker can lease it then, and it can be leased again once the lease
/// has run out.
pub proof fn hung_action_is_held_until_its_lease_runs_out(
    s: Seq<DomainActionView>,
    id: u128,
    duration: u32,
    timeout: u64,
    leased_at: i64,
    given_up_at: i64,
    next_duration: u32,
)
    requires
        well_formed(s),
        lease_result(s, id, duration, leased_at) is Ok,
        timeout < duration,
        leased_at + duration <= i64::MAX,
        leased_at <= given_up_at <= leased_at + timeout,
    ensures
        ({
            let t = lease_result(s, id, duration, leased_at).unwrap();
            &&& after_outcome(t, id, OutcomeView::TimedOut, given_up_at) == t
            &&& has_id(t, id)
            &&& lease_is_live(entry(t, id), given_up_at)
            &&& lease_result(t, id, next_duration, given_up_at) == Err::<
                Seq<DomainActionView>,
                ErrorCode,
            >(ErrorCode::ConcurrencyError)
            &&& lease_result(t, id, next_duration, (leased_at + duration) as i64) is Ok
        }),
{
    lease_touches_one_action(s, id, duration, leased_at);
}

} // verus!
