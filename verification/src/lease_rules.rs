use vstd::prelude::*;
use crate::action_store::{
    has_id, in_schedule_order, insert_result, insertion_point, is_due_pending, lease_is_live,
    lease_result, leasable, leased, lemma_insert_keeps_well_formed, lemma_position,
    lemma_selection_answers, lemma_selection_in_order, lemma_update_entry, position, selection,
    settle_result, settled, well_formed, Query, Settlement,
};
use crate::domain_actions::{is_terminal, stored, DomainActionView, NewDomainActionView};
use crate::errors::ErrorCode;

verus! {

/// Taking a lease leaves every other action as it was and changes of the
/// leased one only its status, the end of its lease and the time of its
/// last change.
pub proof fn lease_touches_one_action(
    s: Seq<DomainActionView>,
    id: u128,
    duration: u32,
    now: i64,
)
    requires
        well_formed(s),
        lease_result(s, id, duration, now) is Ok,
    ensures
        has_id(s, id),
        leasable(s[position(s, id)], now),
        lease_result(s, id, duration, now).unwrap() == s.update(
            position(s, id),
            leased(s[position(s, id)], (now + duration) as i64, now),
        ),
        has_id(lease_result(s, id, duration, now).unwrap(), id),
        position(lease_result(s, id, duration, now).unwrap(), id) == position(s, id),
{
    let i = position(s, id);
    let t = lease_result(s, id, duration, now).unwrap();
    lemma_update_entry(s, i, leased(s[i], (now + duration) as i64, now));
    lemma_position(t, i);
}

/// Lease exclusivity. Of two attempts to lease an action that is free, the
/// second made before the lease of the first has run out, the first
/// succeeds and the second is refused with `ConcurrencyError`.
pub proof fn lease_is_exclusive(
    s: Seq<DomainActionView>,
    id: u128,
    first_duration: u32,
    first_at: i64,
    second_duration: u32,
    second_at: i64,
)
    requires
        well_formed(s),
        has_id(s, id),
        leasable(s[position(s, id)], first_at),
        first_at <= second_at < first_at + first_duration <= i64::MAX,
    ensures
        lease_result(s, id, first_duration, first_at) is Ok,
        lease_result(
            lease_result(s, id, first_duration, first_at).unwrap(),
            id,
            second_duration,
            second_at,
        ) == Err::<Seq<DomainActionView>, ErrorCode>(ErrorCode::ConcurrencyError),
{
    lease_touches_one_action(s, id, first_duration, first_at);
}

/// Exactly one of two workers that race for a free action wins: whichever
/// of them the store serves first gets the lease, and the other is refused
/// with `ConcurrencyError`. The store is the same whichever order it serves
/// them in, but for the length of the lease that was granted.
pub proof fn one_of_two_racing_workers_wins(
    s: Seq<DomainActionView>,
    id: u128,
    duration: u32,
    now: i64,
)
    requires
        well_formed(s),
        has_id(s, id),
        leasable(s[position(s, id)], now),
        0 < duration,
        now + duration <= i64::MAX,
    ensures
        lease_result(s, id, duration, now) is Ok,
        lease_result(lease_result(s, id, duration, now).unwrap(), id, duration, now) == Err::<
            Seq<DomainActionView>,
            ErrorCode,
        >(ErrorCode::ConcurrencyError),
{
    lease_is_exclusive(s, id, duration, now, duration, now);
}

/// Lease expiry. An action leased at `at` for `duration` seconds is held
/// until `at + duration` and can be leased again from then on, though it was
/// never settled and is still marked busy.
pub proof fn lease_runs_out(
    s: Seq<DomainActionView>,
    id: u128,
    duration: u32,
    at: i64,
    later: i64,
    next_duration: u32,
)
    requires
        well_formed(s),
        lease_result(s, id, duration, at) is Ok,
        at + duration <= i64::MAX,
    ensures
        ({
            let t = lease_result(s, id, duration, at).unwrap();
            let a = t[position(t, id)];
            &&& a.status is Busy
            &&& a.busy_until == Some((at + duration) as i64)
            &&& lease_is_live(a, later) <==> later < at + duration
            &&& leasable(a, later) <==> at + duration <= later
            &&& lease_result(t, id, next_duration, later) is Ok <==> at + duration <= later
        }),
{
    lease_touches_one_action(s, id, duration, at);
}

/// Settling is idempotent. Marking an action that has reached a terminal
/// state as done, failed or cancelled changes nothing, and is no error.
pub proof fn settling_a_settled_action_changes_nothing(
    s: Seq<DomainActionView>,
    id: u128,
    how: Settlement,
    now: i64,
)
    requires
        has_id(s, id),
        is_terminal(s[position(s, id)].status),
    ensures
        settle_result(s, id, how, now) == Ok::<Seq<DomainActionView>, ErrorCode>(s),
{
}

/// Settling twice is settling once: whatever the second call asks for, it
/// finds the action in a terminal state and leaves the store as the first
/// call left it.
pub proof fn settling_twice_is_settling_once(
    s: Seq<DomainActionView>,
    id: u128,
    first: Settlement,
    first_at: i64,
    second: Settlement,
    second_at: i64,
)
    requires
        well_formed(s),
        has_id(s, id),
    ensures
        settle_result(s, id, first, first_at) is Ok,
        settle_result(settle_result(s, id, first, first_at).unwrap(), id, second, second_at)
            == settle_result(s, id, first, first_at),
{
    let i = position(s, id);
    let t = settle_result(s, id, first, first_at).unwrap();
    if !is_terminal(s[i].status) {
        lemma_update_entry(s, i, settled(s[i], first, first_at));
        lemma_position(t, i);
    }
}

/// A settled action is never leased again.
pub proof fn settled_actions_are_not_leased(
    s: Seq<DomainActionView>,
    id: u128,
    duration: u32,
    now: i64,
)
    requires
        has_id(s, id),
        is_terminal(s[position(s, id)].status),
    ensures
        lease_result(s, id, duration, now) == Err::<Seq<DomainActionView>, ErrorCode>(
            ErrorCode::BusinessProcessError,
        ),
{
}

/// Nothing is ever deleted. Whatever is done to a store, every action it
/// held is still held afterwards: a lease and a settlement change one
/// action and leave the number of actions as it is, and storing a new
/// action adds one.
pub proof fn actions_are_retained(
    s: Seq<DomainActionView>,
    id: u128,
    duration: u32,
    how: Settlement,
    new: NewDomainActionView,
    now: i64,
    kept: u128,
)
    requires
        well_formed(s),
        has_id(s, kept),
    ensures
        lease_result(s, id, duration, now) matches Ok(t) ==> has_id(t, kept) && t.len() == s.len(),
        settle_result(s, id, how, now) matches Ok(t) ==> has_id(t, kept) && t.len() == s.len(),
        insert_result(s, new, id, now) matches Ok(t) ==> has_id(t, kept) && has_id(t, id) && t.len()
            == s.len() + 1,
{
    if has_id(s, id) {
        let i = position(s, id);
        if lease_result(s, id, duration, now) is Ok {
            lemma_update_entry(s, i, leased(s[i], (now + duration) as i64, now));
        }
        if settle_result(s, id, how, now) is Ok && !is_terminal(s[i].status) {
            lemma_update_entry(s, i, settled(s[i], how, now));
        }
    }
    if insert_result(s, new, id, now) is Ok {
        let a = stored(new, id, now);
        let p = insertion_point(s, a.scheduled_at);
        lemma_insert_keeps_well_formed(s, a);
        let t = s.insert(p, a);
        let k = position(s, kept);
        assert(t[p].id == id);
        if k < p {
            assert(t[k].id == kept);
        } else {
            assert(t[k + 1].id == kept);
        }
    }
}

/// Order of due actions. What a well-formed store returns as pending at
/// `now` holds no action that is scheduled after `now`, holds only pending
/// actions of the store, and lists them by their schedule, earliest first.
pub proof fn pending_actions_are_due_and_ordered(
    s: Seq<DomainActionView>,
    limit: Option<usize>,
    now: i64,
)
    requires
        well_formed(s),
    ensures
        ({
            let found = selection(s, Query::DuePending { now }, limit);
            &&& forall|k: int|
                0 <= k < found.len() ==> (#[trigger] found[k]).scheduled_at <= now
                    && found[k].status is Pending && s.contains(found[k])
            &&& forall|i: int, j: int|
                0 <= i <= j < found.len() ==> (#[trigger] found[i]).scheduled_at
                    <= (#[trigger] found[j]).scheduled_at
            &&& limit is Some ==> found.len() <= limit.unwrap()
        }),
{
    let q = Query::DuePending { now };
    lemma_selection_answers(s, q, limit);
    lemma_selection_in_order(s, q, limit);
    let found = selection(s, q, limit);
    assert(in_schedule_order(found));
    assert forall|k: int| 0 <= k < found.len() implies (#[trigger] found[k]).scheduled_at <= now
        && found[k].status is Pending && s.contains(found[k]) by {
        assert(is_due_pending(found[k], now));
    }
}

} // verus!
