use vstd::prelude::*;
use crate::domain_actions::{
    is_terminal, payload_fits, stored, DomainAction, DomainActionStatus, DomainActionTypes,
    DomainActionView, NewDomainAction, NewDomainActionView, Tables,
};
use crate::errors::{DatabaseError, ErrorCode};
use crate::ids::{is_random_id, random_id};

verus! {

broadcast use vstd::seq_lib::group_filter_ensures;

/// The models of a list of actions, one by one.
pub open spec fn views(actions: Seq<DomainAction>) -> Seq<DomainActionView> {
    actions.map_values(|a: DomainAction| a@)
}

/// A worker holds a lease on the action that has not run out at `now`. A
/// lease that runs until `t` is live at every time before `t`.
pub open spec fn lease_is_live(a: DomainActionView, now: i64) -> bool {
    a.status is Busy && a.busy_until is Some && now < a.busy_until.unwrap()
}

/// A lease on the action can be taken at `now`: it waits for a worker, or
/// the lease of the worker that had it has run out.
pub open spec fn leasable(a: DomainActionView, now: i64) -> bool {
    a.status is Pending || (a.status is Busy && !lease_is_live(a, now))
}

/// The action is pending and its time has come.
pub open spec fn is_due_pending(a: DomainActionView, now: i64) -> bool {
    a.status is Pending && a.scheduled_at <= now
}

/// The action's time has come and no worker holds it.
pub open spec fn is_due_unleased(a: DomainActionView, now: i64) -> bool {
    leasable(a, now) && a.scheduled_at <= now
}

/// The action is of the given type and status and belongs to the given row
/// of the given table.
pub open spec fn belongs_to(
    a: DomainActionView,
    main_table: Tables,
    main_table_id: u128,
    action_type: DomainActionTypes,
    status: DomainActionStatus,
) -> bool {
    &&& a.main_table == Some(main_table)
    &&& a.main_table_id == Some(main_table_id)
    &&& a.domain_action_type == action_type
    &&& a.status == status
}

/// The questions the store answers with a list of actions.
#[derive(Clone, Copy, Debug, PartialEq, Eq, Structural)]
pub enum Query {
    /// Pending actions whose time has come at `now`.
    DuePending { now: i64 },
    /// Actions whose time has come at `now` and that no worker holds.
    DueUnleased { now: i64 },
    /// Actions of a type and status that belong to a business row.
    Resource {
        main_table: Tables,
        main_table_id: u128,
        action_type: DomainActionTypes,
        status: DomainActionStatus,
    },
}

/// Whether an action answers a query.
pub open spec fn answers(q: Query, a: DomainActionView) -> bool {
    match q {
        Query::DuePending { now } => is_due_pending(a, now),
        Query::DueUnleased { now } => is_due_unleased(a, now),
        Query::Resource { main_table, main_table_id, action_type, status } => belongs_to(
            a,
            main_table,
            main_table_id,
            action_type,
            status,
        ),
    }
}

/// The query as a predicate on actions.
pub open spec fn answering(q: Query) -> spec_fn(DomainActionView) -> bool {
    |a: DomainActionView| answers(q, a)
}

/// The first `limit` items of a sequence, or all of it where there is no
/// limit or it is shorter.
pub open spec fn first_n<A>(s: Seq<A>, limit: Option<usize>) -> Seq<A> {
    match limit {
        Some(n) => if n < s.len() {
            s.take(n as int)
        } else {
            s
        },
        None => s,
    }
}

/// What a query returns from a store: the actions that answer it, in the
/// store's order, cut off at the limit.
pub open spec fn selection(s: Seq<DomainActionView>, q: Query, limit: Option<usize>) -> Seq<
    DomainActionView,
> {
    first_n(s.filter(answering(q)), limit)
}

/// Some action of the sequence has the id.
pub open spec fn has_id(s: Seq<DomainActionView>, id: u128) -> bool {
    exists|i: int| 0 <= i < s.len() && #[trigger] s[i].id == id
}

/// The store holds an action under an id of the random format. Nothing else
/// can keep an id that is freshly drawn from being free.
pub open spec fn holds_random_id(s: Seq<DomainActionView>) -> bool {
    exists|taken: u128| is_random_id(taken) && #[trigger] has_id(s, taken)
}

/// Where the action with the id stands, if there is one.
pub open spec fn position(s: Seq<DomainActionView>, id: u128) -> int {
    choose|i: int| 0 <= i < s.len() && #[trigger] s[i].id == id
}

/// No two actions share an id.
pub open spec fn distinct_ids(s: Seq<DomainActionView>) -> bool {
    forall|i: int, j: int| 0 <= i < j < s.len() ==> #[trigger] s[i].id != #[trigger] s[j].id
}

/// No action stands before one that is scheduled earlier.
pub open spec fn in_schedule_order(s: Seq<DomainActionView>) -> bool {
    forall|i: int, j: int|
        0 <= i <= j < s.len() ==> #[trigger] s[i].scheduled_at <= #[trigger] s[j].scheduled_at
}

/// Every busy action says when its lease runs out.
pub open spec fn leases_are_dated(s: Seq<DomainActionView>) -> bool {
    forall|i: int| 0 <= i < s.len() && #[trigger] s[i].status is Busy ==> s[i].busy_until is Some
}

/// What holds of the contents of every store: ids are unique, the actions
/// stand in the order of their schedule, and every lease has an end.
pub open spec fn well_formed(s: Seq<DomainActionView>) -> bool {
    distinct_ids(s) && in_schedule_order(s) && leases_are_dated(s)
}

/// Where a new action scheduled at `at` goes: right behind the last action
/// that is scheduled no later.
pub open spec fn insertion_point(s: Seq<DomainActionView>, at: i64) -> int
    decreases s.len(),
{
    if s.len() == 0 {
        0
    } else if s.last().scheduled_at <= at {
        s.len() as int
    } else {
        insertion_point(s.drop_last(), at)
    }
}

/// The action once a worker has leased it at `now` until `until`.
pub open spec fn leased(a: DomainActionView, until: i64, now: i64) -> DomainActionView {
    DomainActionView {
        status: DomainActionStatus::Busy,
        busy_until: Some(until),
        updated_at: now,
        ..a
    }
}

/// The action once it has been recorded as done at `now`.
pub open spec fn succeeded(a: DomainActionView, now: i64) -> DomainActionView {
    DomainActionView { status: DomainActionStatus::Success, updated_at: now, ..a }
}

/// The action once it has been recorded as failed at `now`.
pub open spec fn errored(a: DomainActionView, message: Seq<char>, now: i64) -> DomainActionView {
    DomainActionView {
        status: DomainActionStatus::Errored,
        last_error: Some(message),
        updated_at: now,
        ..a
    }
}

/// The action once it has been called off at `now`.
pub open spec fn cancelled(a: DomainActionView, now: i64) -> DomainActionView {
    DomainActionView { status: DomainActionStatus::Cancelled, updated_at: now, ..a }
}

/// What storing a new action under `id` at `now` does to the contents of a
/// store, or why it is refused.
pub open spec fn insert_result(
    s: Seq<DomainActionView>,
    new: NewDomainActionView,
    id: u128,
    now: i64,
) -> Result<Seq<DomainActionView>, ErrorCode> {
    if !payload_fits(new.domain_action_type, new.payload) {
        Err(ErrorCode::ValidationError)
    } else if has_id(s, id) {
        Err(ErrorCode::DuplicateKeyError)
    } else {
        let a = stored(new, id, now);
        Ok(s.insert(insertion_point(s, a.scheduled_at), a))
    }
}

/// What an attempt at `now` to lease the action `id` for `duration` seconds
/// does to the contents of a store, or why it is refused.
pub open spec fn lease_result(
    s: Seq<DomainActionView>,
    id: u128,
    duration: u32,
    now: i64,
) -> Result<Seq<DomainActionView>, ErrorCode> {
    if !has_id(s, id) {
        Err(ErrorCode::NoResults)
    } else {
        let i = position(s, id);
        if is_terminal(s[i].status) {
            Err(ErrorCode::BusinessProcessError)
        } else if lease_is_live(s[i], now) {
            Err(ErrorCode::ConcurrencyError)
        } else {
            Ok(s.update(i, leased(s[i], (now + duration) as i64, now)))
        }
    }
}

/// The terminal states an action can be moved to.
pub enum Settlement {
    Success,
    Errored { message: Seq<char> },
    Cancelled,
}

/// The action once it has been settled at `now`.
pub open spec fn settled(a: DomainActionView, how: Settlement, now: i64) -> DomainActionView {
    match how {
        Settlement::Success => succeeded(a, now),
        Settlement::Errored { message } => errored(a, message, now),
        Settlement::Cancelled => cancelled(a, now),
    }
}

/// What settling the action `id` at `now` does to the contents of a store,
/// or why it is refused. An action that has reached a terminal state stays
/// as it is.
pub open spec fn settle_result(
    s: Seq<DomainActionView>,
    id: u128,
    how: Settlement,
    now: i64,
) -> Result<Seq<DomainActionView>, ErrorCode> {
    if !has_id(s, id) {
        Err(ErrorCode::NoResults)
    } else {
        let i = position(s, id);
        if is_terminal(s[i].status) {
            Ok(s)
        } else {
            Ok(s.update(i, settled(s[i], how, now)))
        }
    }
}

/// The store once every action that answers the query and has not reached
/// a terminal state has been called off at `now`.
pub open spec fn cancelled_where(
    s: Seq<DomainActionView>,
    q: Query,
    now: i64,
) -> Seq<DomainActionView> {
    s.map_values(
        |a: DomainActionView|
            if answers(q, a) && !is_terminal(a.status) {
                cancelled(a, now)
            } else {
                a
            },
    )
}

/// How many actions of a store answer a query and have not reached a
/// terminal state.
pub open spec fn count_open_answers(s: Seq<DomainActionView>, q: Query) -> nat
    decreases s.len(),
{
    if s.len() == 0 {
        0
    } else {
        count_open_answers(s.drop_last(), q) + if answers(q, s.last()) && !is_terminal(
            s.last().status,
        ) {
            1nat
        } else {
            0nat
        }
    }
}

/// In a sequence with distinct ids, an action stands where `position` says.
pub proof fn lemma_position(s: Seq<DomainActionView>, i: int)
    requires
        distinct_ids(s),
        0 <= i < s.len(),
    ensures
        has_id(s, s[i].id),
        position(s, s[i].id) == i,
{
    let id = s[i].id;
    assert(0 <= i < s.len() && s[i].id == id);
    let p = position(s, id);
    assert(0 <= p < s.len() && s[p].id == id);
    if p < i {
        assert(s[p].id != s[i].id);
    } else if i < p {
        assert(s[i].id != s[p].id);
    }
}

/// The action of a store that has the id.
pub open spec fn entry(s: Seq<DomainActionView>, id: u128) -> DomainActionView {
    s[position(s, id)]
}

/// Replacing an action by one with the same id changes what the store holds
/// under that id, and nothing else.
pub proof fn lemma_update_entry(s: Seq<DomainActionView>, i: int, a: DomainActionView)
    requires
        distinct_ids(s),
        0 <= i < s.len(),
        a.id == s[i].id,
    ensures
        distinct_ids(s.update(i, a)),
        forall|id: u128| has_id(s.update(i, a), id) <==> has_id(s, id),
        forall|id: u128|
            has_id(s, id) ==> #[trigger] entry(s.update(i, a), id) == if id == a.id {
                a
            } else {
                entry(s, id)
            },
{
    let t = s.update(i, a);
    assert forall|x: int, y: int| 0 <= x < y < t.len() implies #[trigger] t[x].id != #[trigger] t[y].id by {
        assert(s[x].id != s[y].id);
    }
    assert forall|id: u128| has_id(t, id) <==> has_id(s, id) by {
        if has_id(t, id) {
            let k = position(t, id);
            assert(s[k].id == id);
        }
        if has_id(s, id) {
            let k = position(s, id);
            assert(t[k].id == id);
        }
    }
    assert forall|id: u128| has_id(s, id) implies #[trigger] entry(t, id) == if id == a.id {
        a
    } else {
        entry(s, id)
    } by {
        let k = position(s, id);
        assert(t[k].id == id);
        lemma_position(t, k);
        lemma_position(s, k);
        if id == a.id {
            lemma_position(s, i);
        }
    }
}

/// The store `t` holds the action `a` under `id`, and under every other id
/// what the store `s` holds under it.
pub open spec fn differs_only_at(
    s: Seq<DomainActionView>,
    t: Seq<DomainActionView>,
    id: u128,
    a: DomainActionView,
) -> bool {
    &&& has_id(t, id)
    &&& entry(t, id) == a
    &&& forall|other: u128| other != id ==> (#[trigger] has_id(t, other) <==> has_id(s, other))
    &&& forall|other: u128|
        other != id && has_id(s, other) ==> #[trigger] entry(t, other) == entry(s, other)
}

/// Storing a new action changes nothing of what the store held.
pub proof fn lemma_insert_entry(s: Seq<DomainActionView>, p: int, a: DomainActionView)
    requires
        distinct_ids(s),
        !has_id(s, a.id),
        0 <= p <= s.len(),
    ensures
        distinct_ids(s.insert(p, a)),
        differs_only_at(s, s.insert(p, a), a.id, a),
{
    let t = s.insert(p, a);
    assert forall|i: int, j: int| 0 <= i < j < t.len() implies #[trigger] t[i].id != #[trigger] t[j].id by {
        let oi = if i < p { i } else { i - 1 };
        let oj = if j < p { j } else { j - 1 };
        if i == p {
            assert(s[oj].id != a.id);
        } else if j == p {
            assert(s[oi].id != a.id);
        } else {
            assert(s[oi].id != s[oj].id);
        }
    }
    assert(t[p].id == a.id);
    lemma_position(t, p);
    assert forall|other: u128| other != a.id implies (#[trigger] has_id(t, other) <==> has_id(
        s,
        other,
    )) by {
        if has_id(t, other) {
            let k = position(t, other);
            let ok = if k < p { k } else { k - 1 };
            assert(s[ok].id == other);
        }
        if has_id(s, other) {
            let k = position(s, other);
            let nk = if k < p { k } else { k + 1 };
            assert(t[nk].id == other);
        }
    }
    assert forall|other: u128| other != a.id && has_id(s, other) implies #[trigger] entry(t, other)
        == entry(s, other) by {
        let k = position(s, other);
        let nk = if k < p { k } else { k + 1 };
        assert(t[nk].id == other);
        lemma_position(t, nk);
    }
}

/// Replacing an action by one with the same id changes what the store holds
/// under that id, and nothing else.
pub proof fn lemma_update_differs_only_at(s: Seq<DomainActionView>, id: u128, a: DomainActionView)
    requires
        distinct_ids(s),
        has_id(s, id),
        a.id == id,
    ensures
        differs_only_at(s, s.update(position(s, id), a), id, a),
{
    lemma_update_entry(s, position(s, id), a);
}

/// The actions on which a lease can be taken at `now`, as a predicate.
pub open spec fn leasable_at(now: i64) -> spec_fn(DomainActionView) -> bool {
    |a: DomainActionView| leasable(a, now)
}

/// How many actions of a store a lease can be taken on at `now`.
pub open spec fn open_count(s: Seq<DomainActionView>, now: i64) -> nat {
    s.filter(leasable_at(now)).len()
}

/// Replacing an action by one on which no lease can be taken lowers the
/// number of actions open to a lease by one if one could be taken on the
/// action before, and leaves it as it is otherwise.
pub proof fn lemma_open_count_update(
    s: Seq<DomainActionView>,
    i: int,
    a: DomainActionView,
    now: i64,
)
    requires
        0 <= i < s.len(),
        !leasable(a, now),
    ensures
        open_count(s.update(i, a), now) == if leasable(s[i], now) {
            open_count(s, now) - 1
        } else {
            open_count(s, now) as int
        },
    decreases s.len(),
{
    reveal(Seq::filter);
    let t = s.update(i, a);
    if i == s.len() - 1 {
        assert(t.drop_last() =~= s.drop_last());
    } else {
        assert(t.drop_last() =~= s.drop_last().update(i, a));
        assert(t.last() == s.last());
        lemma_open_count_update(s.drop_last(), i, a, now);
    }
}

/// The insertion point parts an ordered sequence into the actions that are
/// scheduled no later than `at` and those that are scheduled later.
pub proof fn lemma_insertion_point(s: Seq<DomainActionView>, at: i64)
    requires
        in_schedule_order(s),
    ensures
        0 <= insertion_point(s, at) <= s.len(),
        forall|i: int| 0 <= i < insertion_point(s, at) ==> (#[trigger] s[i]).scheduled_at <= at,
        forall|i: int| insertion_point(s, at) <= i < s.len() ==> (#[trigger] s[i]).scheduled_at > at,
    decreases s.len(),
{
    if s.len() == 0 {
    } else if s.last().scheduled_at <= at {
        assert forall|i: int| 0 <= i < s.len() implies (#[trigger] s[i]).scheduled_at <= at by {
            assert(s[i].scheduled_at <= s[s.len() - 1].scheduled_at);
        }
    } else {
        let rest = s.drop_last();
        assert(in_schedule_order(rest)) by {
            assert forall|i: int, j: int| 0 <= i <= j < rest.len() implies #[trigger] rest[i].scheduled_at
                <= #[trigger] rest[j].scheduled_at by {
                assert(s[i].scheduled_at <= s[j].scheduled_at);
            }
        }
        lemma_insertion_point(rest, at);
        let p = insertion_point(rest, at);
        assert forall|i: int| 0 <= i < p implies (#[trigger] s[i]).scheduled_at <= at by {
            assert(rest[i].scheduled_at <= at);
        }
        assert forall|i: int| p <= i < s.len() implies (#[trigger] s[i]).scheduled_at > at by {
            if i < rest.len() {
                assert(rest[i].scheduled_at > at);
            }
        }
    }
}

/// Storing a new action at its insertion point keeps a store well formed.
pub proof fn lemma_insert_keeps_well_formed(s: Seq<DomainActionView>, a: DomainActionView)
    requires
        well_formed(s),
        !has_id(s, a.id),
        a.status is Busy ==> a.busy_until is Some,
    ensures
        well_formed(s.insert(insertion_point(s, a.scheduled_at), a)),
        0 <= insertion_point(s, a.scheduled_at) <= s.len(),
{
    lemma_insertion_point(s, a.scheduled_at);
    let p = insertion_point(s, a.scheduled_at);
    let t = s.insert(p, a);
    assert forall|i: int, j: int| 0 <= i < j < t.len() implies #[trigger] t[i].id != #[trigger] t[j].id by {
        let oi = if i < p { i } else { i - 1 };
        let oj = if j < p { j } else { j - 1 };
        if i == p {
            assert(s[oj].id != a.id);
        } else if j == p {
            assert(s[oi].id != a.id);
        } else {
            assert(s[oi].id != s[oj].id);
        }
    }
    assert forall|i: int, j: int| 0 <= i <= j < t.len() implies #[trigger] t[i].scheduled_at
        <= #[trigger] t[j].scheduled_at by {
        let oi = if i < p { i } else { i - 1 };
        let oj = if j < p { j } else { j - 1 };
        if i == p && j == p {
        } else if i == p {
            assert(s[oj].scheduled_at > a.scheduled_at);
        } else if j == p {
            assert(s[oi].scheduled_at <= a.scheduled_at);
        } else {
            assert(s[oi].scheduled_at <= s[oj].scheduled_at);
        }
    }
    assert forall|i: int| 0 <= i < t.len() && #[trigger] t[i].status is Busy implies t[i].busy_until is Some by {
        if i != p {
            let oi = if i < p { i } else { i - 1 };
            assert(s[oi].status is Busy);
        }
    }
}

/// Replacing an action by one with the same id and schedule keeps a store
/// well formed.
pub proof fn lemma_update_keeps_well_formed(s: Seq<DomainActionView>, i: int, a: DomainActionView)
    requires
        well_formed(s),
        0 <= i < s.len(),
        a.id == s[i].id,
        a.scheduled_at == s[i].scheduled_at,
        a.status is Busy ==> a.busy_until is Some,
    ensures
        well_formed(s.update(i, a)),
{
    let t = s.update(i, a);
    assert forall|x: int, y: int| 0 <= x < y < t.len() implies #[trigger] t[x].id != #[trigger] t[y].id by {
        assert(s[x].id != s[y].id);
    }
    assert forall|x: int, y: int| 0 <= x <= y < t.len() implies #[trigger] t[x].scheduled_at
        <= #[trigger] t[y].scheduled_at by {
        assert(s[x].scheduled_at <= s[y].scheduled_at);
    }
    assert forall|x: int| 0 <= x < t.len() && #[trigger] t[x].status is Busy implies t[x].busy_until is Some by {
        if x != i {
            assert(s[x].status is Busy);
        }
    }
}

/// The actions that answer a query stand in the order in which the store
/// holds them, so a selection from an ordered store is ordered.
pub proof fn lemma_selection_in_order(s: Seq<DomainActionView>, q: Query, limit: Option<usize>)
    requires
        in_schedule_order(s),
    ensures
        in_schedule_order(selection(s, q, limit)),
        in_schedule_order(s.filter(answering(q))),
    decreases s.len(),
{
    reveal(Seq::filter);
    let f = s.filter(answering(q));
    if s.len() > 0 {
        let rest = s.drop_last();
        assert(in_schedule_order(rest)) by {
            assert forall|i: int, j: int| 0 <= i <= j < rest.len() implies #[trigger] rest[i].scheduled_at
                <= #[trigger] rest[j].scheduled_at by {
                assert(s[i].scheduled_at <= s[j].scheduled_at);
            }
        }
        lemma_selection_in_order(rest, q, None);
        let g = rest.filter(answering(q));
        assert(selection(rest, q, None) == g);
        if answers(q, s.last()) {
            assert(f == g.push(s.last()));
            assert forall|i: int, j: int| 0 <= i <= j < f.len() implies #[trigger] f[i].scheduled_at
                <= #[trigger] f[j].scheduled_at by {
                if j < g.len() {
                    assert(g[i].scheduled_at <= g[j].scheduled_at);
                } else if i < g.len() {
                    assert(g.contains(g[i]));
                    rest.lemma_filter_contains_rev(answering(q), g[i]);
                    let k = choose|k: int| 0 <= k < rest.len() && rest[k] == g[i];
                    assert(s[k].scheduled_at <= s[s.len() - 1].scheduled_at);
                }
            }
        } else {
            assert(f == g);
        }
    }
    let r = selection(s, q, limit);
    assert forall|i: int, j: int| 0 <= i <= j < r.len() implies #[trigger] r[i].scheduled_at
        <= #[trigger] r[j].scheduled_at by {
        assert(f[i].scheduled_at <= f[j].scheduled_at);
    }
}

/// The actions of a selection from a store with distinct ids have distinct
/// ids.
pub proof fn lemma_selection_distinct(s: Seq<DomainActionView>, q: Query, limit: Option<usize>)
    requires
        distinct_ids(s),
    ensures
        distinct_ids(selection(s, q, limit)),
        distinct_ids(s.filter(answering(q))),
    decreases s.len(),
{
    reveal(Seq::filter);
    let f = s.filter(answering(q));
    if s.len() > 0 {
        let rest = s.drop_last();
        assert(distinct_ids(rest)) by {
            assert forall|i: int, j: int| 0 <= i < j < rest.len() implies #[trigger] rest[i].id
                != #[trigger] rest[j].id by {
                assert(s[i].id != s[j].id);
            }
        }
        lemma_selection_distinct(rest, q, None);
        let g = rest.filter(answering(q));
        if answers(q, s.last()) {
            assert(f == g.push(s.last()));
            assert forall|i: int, j: int| 0 <= i < j < f.len() implies #[trigger] f[i].id
                != #[trigger] f[j].id by {
                if j < g.len() {
                    assert(g[i].id != g[j].id);
                } else {
                    assert(g.contains(g[i]));
                    rest.lemma_filter_contains_rev(answering(q), g[i]);
                    let k = choose|k: int| 0 <= k < rest.len() && rest[k] == g[i];
                    assert(s[k].id != s[s.len() - 1].id);
                }
            }
        } else {
            assert(f == g);
        }
    }
    let r = selection(s, q, limit);
    assert forall|i: int, j: int| 0 <= i < j < r.len() implies #[trigger] r[i].id
        != #[trigger] r[j].id by {
        assert(f[i].id != f[j].id);
    }
}

/// Every action of a selection answers the query and is held by the store.
pub proof fn lemma_selection_answers(s: Seq<DomainActionView>, q: Query, limit: Option<usize>)
    ensures
        forall|k: int|
            0 <= k < selection(s, q, limit).len() ==> answers(q, #[trigger] selection(s, q, limit)[k])
                && s.contains(selection(s, q, limit)[k]),
        selection(s, q, limit).len() <= s.len(),
        limit is Some ==> selection(s, q, limit).len() <= limit.unwrap(),
{
    let f = s.filter(answering(q));
    let r = selection(s, q, limit);
    assert forall|k: int| 0 <= k < r.len() implies answers(q, #[trigger] r[k]) && s.contains(r[k]) by {
        assert(r[k] == f[k]);
        assert(answering(q)(f[k]));
        assert(f.contains(f[k]));
        s.lemma_filter_contains_rev(answering(q), f[k]);
    }
}

/// A selection without a limit leaves out no action that answers the query.
pub proof fn lemma_selection_is_complete(s: Seq<DomainActionView>, q: Query)
    ensures
        forall|i: int|
            0 <= i < s.len() && answers(q, #[trigger] s[i]) ==> selection(s, q, None).contains(s[i]),
{
    assert forall|i: int| 0 <= i < s.len() && answers(q, #[trigger] s[i]) implies selection(
        s,
        q,
        None,
    ).contains(s[i]) by {
        assert(answering(q)(s[i]));
        s.lemma_filter_contains(answering(q), i);
    }
}

impl Query {
    /// Whether an action answers the query.
    pub fn admits(&self, a: &DomainAction) -> (yes: bool)
        ensures
            yes == answers(*self, a@),
    {
        match self {
            Query::DuePending { now } => {
                matches!(a.status, DomainActionStatus::Pending) && a.scheduled_at <= *now
            },
            Query::DueUnleased { now } => a.can_be_leased(*now) && a.scheduled_at <= *now,
            Query::Resource { main_table, main_table_id, action_type, status } => {
                let same_table = match a.main_table {
                    Some(t) => t == *main_table,
                    None => false,
                };
                let same_row = match a.main_table_id {
                    Some(row) => row == *main_table_id,
                    None => false,
                };
                same_table && same_row && a.domain_action_type == *action_type && a.status
                    == *status
            },
        }
    }
}

impl DomainAction {
    /// Whether a worker holds a lease on the action that has not run out at
    /// `now`.
    pub fn is_leased(&self, now: i64) -> (live: bool)
        ensures
            live == lease_is_live(self@, now),
    {
        match self.busy_until {
            Some(until) => matches!(self.status, DomainActionStatus::Busy) && now < until,
            None => false,
        }
    }

    /// Whether a lease on the action can be taken at `now`.
    pub fn can_be_leased(&self, now: i64) -> (free: bool)
        ensures
            free == leasable(self@, now),
    {
        match self.status {
            DomainActionStatus::Pending => true,
            DomainActionStatus::Busy => !self.is_leased(now),
            _ => false,
        }
    }
}

/// The terminal state to move an action to, with the text to record.
enum Mark {
    Success,
    Errored(String),
    Cancelled,
}

impl View for Mark {
    type V = Settlement;

    closed spec fn view(&self) -> Settlement {
        match self {
            Mark::Success => Settlement::Success,
            Mark::Errored(message) => Settlement::Errored { message: message@ },
            Mark::Cancelled => Settlement::Cancelled,
        }
    }
}

/// The durable record of all actions, pending and past. Nothing is ever
/// deleted from it.
pub struct ActionStore {
    actions: Vec<DomainAction>,
}

impl View for ActionStore {
    type V = Seq<DomainActionView>;

    closed spec fn view(&self) -> Seq<DomainActionView> {
        views(self.actions@)
    }
}

impl ActionStore {
    /// The invariant of the store: see `well_formed`.
    pub open spec fn wf(&self) -> bool {
        well_formed(self@)
    }

    /// A store that holds no action.
    pub fn new() -> (store: ActionStore)
        ensures
            store@ == Seq::<DomainActionView>::empty(),
            store.wf(),
    {
        let store = ActionStore { actions: Vec::new() };
        assert(store@ =~= Seq::<DomainActionView>::empty());
        store
    }

    /// How many actions the store holds.
    pub fn len(&self) -> (n: usize)
        ensures
            n == self@.len(),
    {
        self.actions.len()
    }

    /// Copies of all actions, in the store's order.
    pub fn all(&self) -> (found: Vec<DomainAction>)
        ensures
            views(found@) == self@,
    {
        let mut found: Vec<DomainAction> = Vec::new();
        let mut i: usize = 0;
        while i < self.actions.len()
            invariant
                i <= self.actions.len(),
                views(found@) == self@.take(i as int),
            decreases self.actions.len() - i,
        {
            let copy = self.actions[i].clone();
            let ghost old_found = found@;
            found.push(copy);
            proof {
                assert(views(found@) =~= views(old_found).push(copy@));
                assert(self@.take(i + 1) =~= self@.take(i as int).push(self@[i as int]));
            }
            i += 1;
        }
        assert(self@.take(i as int) =~= self@);
        found
    }

    fn index_of(&self, id: u128) -> (found: Option<usize>)
        requires
            self.wf(),
        ensures
            match found {
                Some(i) => has_id(self@, id) && i == position(self@, id) && i < self@.len()
                    && self@[i as int].id == id,
                None => !has_id(self@, id),
            },
    {
        let mut i: usize = 0;
        while i < self.actions.len()
            invariant
                i <= self.actions.len(),
                self.wf(),
                forall|k: int| 0 <= k < i ==> (#[trigger] self@[k]).id != id,
            decreases self.actions.len() - i,
        {
            if self.actions[i].id == id {
                proof {
                    lemma_position(self@, i as int);
                }
                return Some(i);
            }
            i += 1;
        }
        None
    }

    /// The answers to a query, in the store's order, cut off at the limit.
    pub fn select(&self, q: Query, limit: Option<usize>) -> (found: Vec<DomainAction>)
        ensures
            views(found@) == selection(self@, q, limit),
    {
        let mut found: Vec<DomainAction> = Vec::new();
        let n = self.actions.len();
        let mut i: usize = 0;
        let mut full: bool = match limit {
            Some(l) => l == 0,
            None => false,
        };
        proof {
            reveal(Seq::filter);
            assert(self@.take(0).filter(answering(q)) =~= Seq::<DomainActionView>::empty());
            assert(views(found@) =~= Seq::<DomainActionView>::empty());
        }
        while i < n && !full
            invariant
                n == self.actions.len(),
                i <= n,
                views(found@) == self@.take(i as int).filter(answering(q)),
                limit matches Some(l) ==> found.len() <= l,
                full == (limit matches Some(l) && found.len() >= l),
            decreases n - i,
        {
            let ghost before = self@.take(i as int);
            let ghost after = self@.take(i + 1);
            proof {
                reveal(Seq::filter);
                assert(after.drop_last() =~= before);
                assert(after.last() == self@[i as int]);
            }
            if q.admits(&self.actions[i]) {
                let copy = self.actions[i].clone();
                let ghost old_found = found@;
                found.push(copy);
                proof {
                    assert(views(found@) =~= views(old_found).push(copy@));
                }
                full = match limit {
                    Some(l) => found.len() >= l,
                    None => false,
                };
            }
            i += 1;
        }
        proof {
            let all = self@.filter(answering(q));
            let head = self@.take(i as int);
            let tail = self@.skip(i as int);
            assert(head + tail =~= self@);
            Seq::filter_distributes_over_add(head, tail, answering(q));
            assert(all == head.filter(answering(q)) + tail.filter(answering(q)));
            if i == n {
                assert(tail.filter(answering(q)).len() <= tail.len());
                assert(all =~= head.filter(answering(q)));
            } else {
                let l = limit.unwrap();
                assert(found.len() == l);
                assert(all.take(l as int) =~= head.filter(answering(q)));
                if !(l < all.len()) {
                    assert(all =~= head.filter(answering(q)));
                }
            }
        }
        found
    }

    /// The pending actions whose time has come at `now`, those scheduled
    /// earliest first, no more than `limit` of them.
    pub fn find_pending(&self, limit: Option<usize>, now: i64) -> (found: Vec<DomainAction>)
        requires
            self.wf(),
        ensures
            views(found@) == selection(self@, Query::DuePending { now }, limit),
            forall|k: int|
                0 <= k < found@.len() ==> (#[trigger] found@[k])@.status is Pending
                    && found@[k]@.scheduled_at <= now,
            in_schedule_order(views(found@)),
            limit matches Some(l) ==> found@.len() <= l,
            limit is None ==> forall|i: int|
                0 <= i < self@.len() && is_due_pending(#[trigger] self@[i], now) ==> views(
                    found@,
                ).contains(self@[i]),
    {
        let found = self.select(Query::DuePending { now }, limit);
        proof {
            lemma_selection_in_order(self@, Query::DuePending { now }, limit);
            lemma_selection_answers(self@, Query::DuePending { now }, limit);
            lemma_selection_is_complete(self@, Query::DuePending { now });
            assert forall|k: int| 0 <= k < found@.len() implies (#[trigger] found@[k])@.status is Pending
                && found@[k]@.scheduled_at <= now by {
                assert(views(found@)[k] == found@[k]@);
            }
        }
        found
    }

    /// The actions whose time has come at `now` and that no worker holds:
    /// the pending ones and those whose lease has run out. Those scheduled
    /// earliest come first, no more than `limit` of them.
    pub fn find_due(&self, limit: Option<usize>, now: i64) -> (found: Vec<DomainAction>)
        requires
            self.wf(),
        ensures
            views(found@) == selection(self@, Query::DueUnleased { now }, limit),
            forall|k: int|
                0 <= k < found@.len() ==> leasable((#[trigger] found@[k])@, now)
                    && found@[k]@.scheduled_at <= now,
            in_schedule_order(views(found@)),
            limit matches Some(l) ==> found@.len() <= l,
            limit is None ==> forall|i: int|
                0 <= i < self@.len() && is_due_unleased(#[trigger] self@[i], now) ==> views(
                    found@,
                ).contains(self@[i]),
    {
        let found = self.select(Query::DueUnleased { now }, limit);
        proof {
            lemma_selection_in_order(self@, Query::DueUnleased { now }, limit);
            lemma_selection_answers(self@, Query::DueUnleased { now }, limit);
            lemma_selection_is_complete(self@, Query::DueUnleased { now });
            assert forall|k: int| 0 <= k < found@.len() implies leasable((#[trigger] found@[k])@, now)
                && found@[k]@.scheduled_at <= now by {
                assert(views(found@)[k] == found@[k]@);
            }
        }
        found
    }

    /// The actions of a type and status that belong to a row of a business
    /// table.
    pub fn find_by_resource(
        &self,
        main_table: Tables,
        main_table_id: u128,
        action_type: DomainActionTypes,
        status: DomainActionStatus,
    ) -> (found: Vec<DomainAction>)
        ensures
            views(found@) == selection(
                self@,
                Query::Resource { main_table, main_table_id, action_type, status },
                None,
            ),
            forall|k: int|
                0 <= k < found@.len() ==> belongs_to(
                    (#[trigger] found@[k])@,
                    main_table,
                    main_table_id,
                    action_type,
                    status,
                ),
    {
        let q = Query::Resource { main_table, main_table_id, action_type, status };
        let found = self.select(q, None);
        proof {
            lemma_selection_answers(self@, q, None);
            assert forall|k: int| 0 <= k < found@.len() implies belongs_to(
                (#[trigger] found@[k])@,
                main_table,
                main_table_id,
                action_type,
                status,
            ) by {
                assert(views(found@)[k] == found@[k]@);
            }
        }
        found
    }

    /// The action with the given id.
    pub fn find(&self, id: u128) -> (found: Result<DomainAction, DatabaseError>)
        requires
            self.wf(),
        ensures
            match found {
                Ok(a) => has_id(self@, id) && a@ == self@[position(self@, id)],
                Err(e) => !has_id(self@, id) && e.error_code == ErrorCode::NoResults,
            },
    {
        match self.index_of(id) {
            Some(i) => Ok(self.actions[i].clone()),
            None => Err(DatabaseError::no_results()),
        }
    }

    /// Stores a new action under the id the caller has drawn for it.
    /// Refused with `ValidationError` where the payload does not fit the
    /// type, and with `DuplicateKeyError` where the id is taken.
    pub fn insert(&mut self, new: NewDomainAction, id: u128, now: i64) -> (outcome: Result<
        DomainAction,
        DatabaseError,
    >)
        requires
            old(self).wf(),
        ensures
            final(self).wf(),
            match insert_result(old(self)@, new@, id, now) {
                Ok(s) => final(self)@ == s && outcome is Ok && outcome.unwrap()@ == stored(
                    new@,
                    id,
                    now,
                ),
                Err(code) => final(self)@ == old(self)@ && outcome is Err
                    && outcome.unwrap_err().error_code == code,
            },
            outcome is Ok ==> differs_only_at(old(self)@, final(self)@, id, stored(new@, id, now)),
    {
        if !new.payload.fits(new.domain_action_type) {
            return Err(DatabaseError::validation_error());
        }
        if self.index_of(id).is_some() {
            return Err(DatabaseError::new(ErrorCode::DuplicateKeyError));
        }
        let scheduled_at = match new.scheduled_at {
            Some(at) => at,
            None => now,
        };
        let ghost model = stored(new@, id, now);
        let action = DomainAction {
            id,
            domain_action_type: new.domain_action_type,
            payload: new.payload,
            main_table: new.main_table,
            main_table_id: new.main_table_id,
            status: DomainActionStatus::Pending,
            scheduled_at,
            busy_until: None,
            last_error: None,
            created_at: now,
            updated_at: now,
        };
        assert(action@ == model);
        let copy = action.clone();
        let mut at: usize = self.actions.len();
        proof {
            assert(self@.take(at as int) =~= self@);
        }
        while at > 0 && self.actions[at - 1].scheduled_at > scheduled_at
            invariant
                at <= self.actions.len(),
                insertion_point(self@, scheduled_at) == insertion_point(
                    self@.take(at as int),
                    scheduled_at,
                ),
            decreases at,
        {
            proof {
                let head = self@.take(at as int);
                assert(head.last() == self@[at - 1]);
                assert(head.drop_last() =~= self@.take(at - 1));
            }
            at -= 1;
        }
        proof {
            let head = self@.take(at as int);
            if at > 0 {
                assert(head.last() == self@[at - 1]);
            }
            assert(insertion_point(self@, scheduled_at) == at);
            lemma_insert_keeps_well_formed(self@, model);
            lemma_insert_entry(self@, at as int, model);
        }
        let ghost before = self.actions@;
        self.actions.insert(at, action);
        proof {
            assert(views(self.actions@) =~= views(before).insert(at as int, model));
        }
        Ok(copy)
    }

    /// Stores a new action as pending under a fresh id: due at the time it
    /// asks for, or at once if it asks for none. Refused with
    /// `ValidationError` where the payload does not fit the type; the id
    /// that was drawn being taken already is the only other way to fail, so
    /// an action whose payload fits is stored for certain where the store
    /// holds no id of the random format.
    pub fn create(&mut self, new: NewDomainAction, now: i64) -> (outcome: Result<
        DomainAction,
        DatabaseError,
    >)
        requires
            old(self).wf(),
        ensures
            final(self).wf(),
            outcome is Err && outcome.unwrap_err().error_code == ErrorCode::DuplicateKeyError
                ==> holds_random_id(old(self)@),
            payload_fits(new@.domain_action_type, new@.payload) && !holds_random_id(old(self)@)
                ==> outcome is Ok,
            match outcome {
                Ok(a) => is_random_id(a.id) && a@ == stored(new@, a.id, now) && insert_result(
                    old(self)@,
                    new@,
                    a.id,
                    now,
                ) == Ok::<Seq<DomainActionView>, ErrorCode>(final(self)@),
                Err(e) => final(self)@ == old(self)@ && (e.error_code == ErrorCode::ValidationError
                    || e.error_code == ErrorCode::DuplicateKeyError),
            },
            !payload_fits(new@.domain_action_type, new@.payload) <==> (outcome is Err
                && outcome.unwrap_err().error_code == ErrorCode::ValidationError),
    {
        let id = random_id();
        self.insert(new, id, now)
    }

    /// Takes a lease on the action for a worker: the action is busy until
    /// `lease_duration_seconds` after `now`. Refused with `ConcurrencyError`
    /// while another lease on it has not run out, with
    /// `BusinessProcessError` once the action has reached a terminal state,
    /// and with `NoResults` where there is no such action.
    pub fn lease(&mut self, id: u128, lease_duration_seconds: u32, now: i64) -> (outcome: Result<
        (),
        DatabaseError,
    >)
        requires
            old(self).wf(),
            now + lease_duration_seconds <= i64::MAX,
        ensures
            final(self).wf(),
            match lease_result(old(self)@, id, lease_duration_seconds, now) {
                Ok(s) => final(self)@ == s && outcome is Ok,
                Err(code) => final(self)@ == old(self)@ && outcome is Err
                    && outcome.unwrap_err().error_code == code,
            },
            outcome is Ok ==> differs_only_at(
                old(self)@,
                final(self)@,
                id,
                leased(entry(old(self)@, id), (now + lease_duration_seconds) as i64, now),
            ),
    {
        let i = match self.index_of(id) {
            Some(i) => i,
            None => {
                return Err(DatabaseError::no_results());
            },
        };
        if self.actions[i].status.is_terminal() {
            return Err(DatabaseError::business_process_error());
        }
        if self.actions[i].is_leased(now) {
            return Err(DatabaseError::concurrency_error());
        }
        let until: i64 = now + (lease_duration_seconds as i64);
        let current = self.actions[i].clone();
        let next = DomainAction {
            id: current.id,
            domain_action_type: current.domain_action_type,
            payload: current.payload,
            main_table: current.main_table,
            main_table_id: current.main_table_id,
            status: DomainActionStatus::Busy,
            scheduled_at: current.scheduled_at,
            busy_until: Some(until),
            last_error: current.last_error,
            created_at: current.created_at,
            updated_at: now,
        };
        let ghost before = self.actions@;
        proof {
            assert(next@ == leased(self@[i as int], until, now));
            lemma_update_keeps_well_formed(self@, i as int, next@);
            lemma_update_differs_only_at(self@, id, next@);
        }
        self.actions.set(i, next);
        proof {
            assert(views(self.actions@) =~= views(before).update(i as int, next@));
        }
        Ok(())
    }

    fn settle(&mut self, id: u128, mark: Mark, now: i64) -> (outcome: Result<(), DatabaseError>)
        requires
            old(self).wf(),
        ensures
            final(self).wf(),
            match settle_result(old(self)@, id, mark@, now) {
                Ok(s) => final(self)@ == s && outcome is Ok,
                Err(code) => final(self)@ == old(self)@ && outcome is Err
                    && outcome.unwrap_err().error_code == code,
            },
            outcome is Ok && !is_terminal(entry(old(self)@, id).status) ==> differs_only_at(
                old(self)@,
                final(self)@,
                id,
                settled(entry(old(self)@, id), mark@, now),
            ),
    {
        let i = match self.index_of(id) {
            Some(i) => i,
            None => {
                return Err(DatabaseError::no_results());
            },
        };
        if self.actions[i].status.is_terminal() {
            return Ok(());
        }
        let current = self.actions[i].clone();
        let ghost how = mark@;
        let (status, last_error) = match mark {
            Mark::Success => (DomainActionStatus::Success, current.last_error),
            Mark::Errored(message) => (DomainActionStatus::Errored, Some(message)),
            Mark::Cancelled => (DomainActionStatus::Cancelled, current.last_error),
        };
        let next = DomainAction {
            id: current.id,
            domain_action_type: current.domain_action_type,
            payload: current.payload,
            main_table: current.main_table,
            main_table_id: current.main_table_id,
            status,
            scheduled_at: current.scheduled_at,
            busy_until: current.busy_until,
            last_error,
            created_at: current.created_at,
            updated_at: now,
        };
        let ghost before = self.actions@;
        proof {
            assert(next@ == settled(self@[i as int], how, now));
            lemma_update_keeps_well_formed(self@, i as int, next@);
            lemma_update_differs_only_at(self@, id, next@);
        }
        self.actions.set(i, next);
        proof {
            assert(views(self.actions@) =~= views(before).update(i as int, next@));
        }
        Ok(())
    }

    /// Calls off, at `now`, every action that answers the query and has not
    /// reached a terminal state, and says how many there were.
    pub fn cancel_matching(&mut self, q: Query, now: i64) -> (called_off: usize)
        requires
            old(self).wf(),
        ensures
            final(self).wf(),
            final(self)@ == cancelled_where(old(self)@, q, now),
            called_off == count_open_answers(old(self)@, q),
    {
        let n = self.actions.len();
        let mut called_off: usize = 0;
        let mut i: usize = 0;
        proof {
            assert(cancelled_where(self@.take(0), q, now) + self@.skip(0) =~= self@);
        }
        while i < n
            invariant
                i <= n,
                n == self.actions.len(),
                n == old(self)@.len(),
                self.wf(),
                self@ == cancelled_where(old(self)@.take(i as int), q, now) + old(self)@.skip(
                    i as int,
                ),
                called_off == count_open_answers(old(self)@.take(i as int), q),
                called_off <= i,
            decreases n - i,
        {
            let ghost before = self.actions@;
            let ghost current = self@;
            proof {
                assert(current[i as int] == old(self)@[i as int]);
                assert(old(self)@.take(i + 1).drop_last() =~= old(self)@.take(i as int));
                assert(old(self)@.take(i + 1).last() == old(self)@[i as int]);
            }
            if q.admits(&self.actions[i]) && !self.actions[i].status.is_terminal() {
                let current_action = self.actions[i].clone();
                let next = DomainAction {
                    id: current_action.id,
                    domain_action_type: current_action.domain_action_type,
                    payload: current_action.payload,
                    main_table: current_action.main_table,
                    main_table_id: current_action.main_table_id,
                    status: DomainActionStatus::Cancelled,
                    scheduled_at: current_action.scheduled_at,
                    busy_until: current_action.busy_until,
                    last_error: current_action.last_error,
                    created_at: current_action.created_at,
                    updated_at: now,
                };
                proof {
                    assert(next@ == cancelled(current[i as int], now));
                    lemma_update_keeps_well_formed(current, i as int, next@);
                }
                self.actions.set(i, next);
                proof {
                    assert(views(self.actions@) =~= views(before).update(i as int, next@));
                }
                called_off += 1;
            }
            proof {
                assert(self@ =~= cancelled_where(old(self)@.take(i + 1), q, now) + old(self)@.skip(
                    i + 1,
                ));
            }
            i += 1;
        }
        proof {
            assert(old(self)@.take(i as int) =~= old(self)@);
            assert(self@ =~= cancelled_where(old(self)@, q, now));
        }
        called_off
    }

    /// Records that the action was carried out. An action that has already
    /// reached a terminal state is left as it is, and that is no error.
    pub fn mark_success(&mut self, id: u128, now: i64) -> (outcome: Result<(), DatabaseError>)
        requires
            old(self).wf(),
        ensures
            final(self).wf(),
            match settle_result(old(self)@, id, Settlement::Success, now) {
                Ok(s) => final(self)@ == s && outcome is Ok,
                Err(code) => final(self)@ == old(self)@ && outcome is Err
                    && outcome.unwrap_err().error_code == code,
            },
            outcome is Ok && !is_terminal(entry(old(self)@, id).status) ==> differs_only_at(
                old(self)@,
                final(self)@,
                id,
                settled(entry(old(self)@, id), Settlement::Success, now),
            ),
    {
        self.settle(id, Mark::Success, now)
    }

    /// Records that the action failed, with the text that says why. An
    /// action that has already reached a terminal state is left as it is,
    /// and that is no error.
    pub fn mark_errored(&mut self, id: u128, message: String, now: i64) -> (outcome: Result<
        (),
        DatabaseError,
    >)
        requires
            old(self).wf(),
        ensures
            final(self).wf(),
            match settle_result(old(self)@, id, Settlement::Errored { message: message@ }, now) {
                Ok(s) => final(self)@ == s && outcome is Ok,
                Err(code) => final(self)@ == old(self)@ && outcome is Err
                    && outcome.unwrap_err().error_code == code,
            },
            outcome is Ok && !is_terminal(entry(old(self)@, id).status) ==> differs_only_at(
                old(self)@,
                final(self)@,
                id,
                settled(entry(old(self)@, id), Settlement::Errored { message: message@ }, now),
            ),
    {
        self.settle(id, Mark::Errored(message), now)
    }

    /// Calls the action off. An action that has already reached a terminal
    /// state is left as it is, and that is no error.
    pub fn mark_cancelled(&mut self, id: u128, now: i64) -> (outcome: Result<(), DatabaseError>)
        requires
            old(self).wf(),
        ensures
            final(self).wf(),
            match settle_result(old(self)@, id, Settlement::Cancelled, now) {
                Ok(s) => final(self)@ == s && outcome is Ok,
                Err(code) => final(self)@ == old(self)@ && outcome is Err
                    && outcome.unwrap_err().error_code == code,
            },
            outcome is Ok && !is_terminal(entry(old(self)@, id).status) ==> differs_only_at(
                old(self)@,
                final(self)@,
                id,
                settled(entry(old(self)@, id), Settlement::Cancelled, now),
            ),
    {
        self.settle(id, Mark::Cancelled, now)
    }
}

impl NewDomainAction {
    /// Stores the action: see `ActionStore::create`.
    pub fn commit(self, store: &mut ActionStore, now: i64) -> (outcome: Result<
        DomainAction,
        DatabaseError,
    >)
        requires
            old(store).wf(),
        ensures
            final(store).wf(),
            outcome is Err && outcome.unwrap_err().error_code == ErrorCode::DuplicateKeyError
                ==> holds_random_id(old(store)@),
            payload_fits(self@.domain_action_type, self@.payload) && !holds_random_id(old(store)@)
                ==> outcome is Ok,
            match outcome {
                Ok(a) => is_random_id(a.id) && a@ == stored(self@, a.id, now) && insert_result(
                    old(store)@,
                    self@,
                    a.id,
                    now,
                ) == Ok::<Seq<DomainActionView>, ErrorCode>(final(store)@),
                Err(e) => final(store)@ == old(store)@ && (e.error_code
                    == ErrorCode::ValidationError || e.error_code == ErrorCode::DuplicateKeyError),
            },
            !payload_fits(self@.domain_action_type, self@.payload) <==> (outcome is Err
                && outcome.unwrap_err().error_code == ErrorCode::ValidationError),
    {
        store.create(self, now)
    }
}

impl DomainAction {
    /// Calls the action off in the store that holds it: see
    /// `ActionStore::mark_cancelled`.
    pub fn set_cancelled(&self, store: &mut ActionStore, now: i64) -> (outcome: Result<
        (),
        DatabaseError,
    >)
        requires
            old(store).wf(),
        ensures
            final(store).wf(),
            match settle_result(old(store)@, self.id, Settlement::Cancelled, now) {
                Ok(s) => final(store)@ == s && outcome is Ok,
                Err(code) => final(store)@ == old(store)@ && outcome is Err
                    && outcome.unwrap_err().error_code == code,
            },
            outcome is Ok && !is_terminal(entry(old(store)@, self.id).status) ==> differs_only_at(
                old(store)@,
                final(store)@,
                self.id,
                settled(entry(old(store)@, self.id), Settlement::Cancelled, now),
            ),
    {
        store.mark_cancelled(self.id, now)
    }
}

} // verus!
