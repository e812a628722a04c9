use vstd::prelude::*;
use crate::database::Connection;
use crate::domain_actions::{DomainAction, DomainActionTypes};

verus! {

/// How the execution of an action ended.
#[derive(Debug, PartialEq, Eq)]
pub enum ExecutionOutcome {
    /// The side effect was carried out.
    Success,
    /// The executor reports that the action has failed, and why.
    Failure(String),
    /// The executor did not finish within the time it was given, or could
    /// not be run to its end.
    TimedOut,
}

/// How an execution ended, with the executor's text as a sequence of
/// characters.
pub enum OutcomeView {
    Success,
    Failure(Seq<char>),
    TimedOut,
}

impl View for ExecutionOutcome {
    type V = OutcomeView;

    open spec fn view(&self) -> OutcomeView {
        match self {
            ExecutionOutcome::Success => OutcomeView::Success,
            ExecutionOutcome::Failure(message) => OutcomeView::Failure(message@),
            ExecutionOutcome::TimedOut => OutcomeView::TimedOut,
        }
    }
}

impl Clone for ExecutionOutcome {
    fn clone(&self) -> (copy: ExecutionOutcome)
        ensures
            copy@ == self@,
    {
        match self {
            ExecutionOutcome::Success => ExecutionOutcome::Success,
            ExecutionOutcome::Failure(message) => ExecutionOutcome::Failure(message.clone()),
            ExecutionOutcome::TimedOut => ExecutionOutcome::TimedOut,
        }
    }
}

/// The capability to carry out the actions of one type. The dispatcher
/// hands the executor the action, a connection to the store that is the
/// executor's own for the length of the call, and the number of seconds
/// after which it stops waiting for the executor. Nothing is assumed of
/// what the executor returns.
pub trait DomainActionExecutor {
    fn execute(
        &self,
        action: &DomainAction,
        connection: &Connection,
        timeout_seconds: u64,
    ) -> ExecutionOutcome;
}

/// How many action types there are: the number of slots of a router.
pub const ROUTER_SLOTS: usize = 6;

/// The slot of the router that belongs to an action type.
pub open spec fn slot_of(action_type: DomainActionTypes) -> int {
    match action_type {
        DomainActionTypes::SendEmail => 0,
        DomainActionTypes::RedeemOnChain => 1,
        DomainActionTypes::RegenerateDripActions => 2,
        DomainActionTypes::BroadcastPushNotification => 3,
        DomainActionTypes::ProcessTransferDrip => 4,
        DomainActionTypes::UpdateGenres => 5,
    }
}

fn slot(action_type: DomainActionTypes) -> (i: usize)
    ensures
        i == slot_of(action_type),
        i < ROUTER_SLOTS,
{
    match action_type {
        DomainActionTypes::SendEmail => 0,
        DomainActionTypes::RedeemOnChain => 1,
        DomainActionTypes::RegenerateDripActions => 2,
        DomainActionTypes::BroadcastPushNotification => 3,
        DomainActionTypes::ProcessTransferDrip => 4,
        DomainActionTypes::UpdateGenres => 5,
    }
}

/// The action type that belongs to a slot of the router.
pub open spec fn type_of_slot(i: int) -> DomainActionTypes {
    if i == 0 {
        DomainActionTypes::SendEmail
    } else if i == 1 {
        DomainActionTypes::RedeemOnChain
    } else if i == 2 {
        DomainActionTypes::RegenerateDripActions
    } else if i == 3 {
        DomainActionTypes::BroadcastPushNotification
    } else if i == 4 {
        DomainActionTypes::ProcessTransferDrip
    } else {
        DomainActionTypes::UpdateGenres
    }
}

fn type_at(i: usize) -> (action_type: DomainActionTypes)
    requires
        i < ROUTER_SLOTS,
    ensures
        action_type == type_of_slot(i as int),
        slot_of(action_type) == i,
{
    if i == 0 {
        DomainActionTypes::SendEmail
    } else if i == 1 {
        DomainActionTypes::RedeemOnChain
    } else if i == 2 {
        DomainActionTypes::RegenerateDripActions
    } else if i == 3 {
        DomainActionTypes::BroadcastPushNotification
    } else if i == 4 {
        DomainActionTypes::ProcessTransferDrip
    } else {
        DomainActionTypes::UpdateGenres
    }
}

/// The table that says which executor carries out the actions of which
/// type. It is filled when the process starts and read from then on.
pub struct DomainActionRouter<E> {
    slots: Vec<Option<E>>,
}

impl<E> View for DomainActionRouter<E> {
    type V = Map<DomainActionTypes, E>;

    closed spec fn view(&self) -> Map<DomainActionTypes, E> {
        Map::new(
            |t: DomainActionTypes| slot_of(t) < self.slots@.len() && self.slots@[slot_of(t)] is Some,
            |t: DomainActionTypes| self.slots@[slot_of(t)].unwrap(),
        )
    }
}

impl<E> DomainActionRouter<E> {
    /// The invariant of the router: it has a slot for every action type.
    pub closed spec fn wf(&self) -> bool {
        self.slots@.len() == ROUTER_SLOTS
    }

    /// A router that knows no executor.
    pub fn new() -> (router: DomainActionRouter<E>)
        ensures
            router.wf(),
            router@ == Map::<DomainActionTypes, E>::empty(),
    {
        let mut slots: Vec<Option<E>> = Vec::new();
        let mut i: usize = 0;
        while i < ROUTER_SLOTS
            invariant
                i <= ROUTER_SLOTS,
                slots@.len() == i,
                forall|k: int| 0 <= k < i ==> (#[trigger] slots@[k]) is None,
            decreases ROUTER_SLOTS - i,
        {
            slots.push(None);
            i += 1;
        }
        let router = DomainActionRouter { slots };
        assert(router@ =~= Map::<DomainActionTypes, E>::empty());
        router
    }

    /// Makes `executor` the one that carries out the actions of
    /// `action_type`. An executor registered for the type before is
    /// replaced: the last registration wins.
    pub fn register(&mut self, action_type: DomainActionTypes, executor: E)
        requires
            old(self).wf(),
        ensures
            final(self).wf(),
            final(self)@ == old(self)@.insert(action_type, executor),
    {
        let i = slot(action_type);
        let ghost before = self.slots@;
        self.slots.set(i, Some(executor));
        proof {
            assert forall|t: DomainActionTypes| t != action_type implies slot_of(t) != slot_of(
                action_type,
            ) by {}
            assert(self@ =~= old(self)@.insert(action_type, executor));
        }
    }

    /// The executor that carries out the actions of `action_type`, or
    /// `None` where none was registered for it.
    pub fn get_executor_for(&self, action_type: DomainActionTypes) -> (found: Option<&E>)
        requires
            self.wf(),
        ensures
            match found {
                Some(executor) => self@.contains_key(action_type) && *executor
                    == self@[action_type],
                None => !self@.contains_key(action_type),
            },
    {
        let i = slot(action_type);
        match &self.slots[i] {
            Some(executor) => Some(executor),
            None => None,
        }
    }

    /// The action types for which no executor is registered, each once, in
    /// the order of their slots. A router that is fit for service returns
    /// none: an action of a type that is listed here would be marked as
    /// failed by the pass that finds it.
    pub fn missing_executors(&self) -> (missing: Vec<DomainActionTypes>)
        requires
            self.wf(),
        ensures
            forall|t: DomainActionTypes| missing@.contains(t) <==> !self@.contains_key(t),
            forall|i: int, j: int|
                0 <= i < j < missing@.len() ==> slot_of(#[trigger] missing@[i]) < slot_of(
                    #[trigger] missing@[j],
                ),
    {
        let mut missing: Vec<DomainActionTypes> = Vec::new();
        let mut i: usize = 0;
        while i < ROUTER_SLOTS
            invariant
                i <= ROUTER_SLOTS,
                self.wf(),
                forall|k: int| 0 <= k < missing@.len() ==> slot_of(#[trigger] missing@[k]) < i,
                forall|t: DomainActionTypes|
                    missing@.contains(t) <==> (slot_of(t) < i && !self@.contains_key(t)),
                forall|x: int, y: int|
                    0 <= x < y < missing@.len() ==> slot_of(#[trigger] missing@[x]) < slot_of(
                        #[trigger] missing@[y],
                    ),
            decreases ROUTER_SLOTS - i,
        {
            let action_type = type_at(i);
            let ghost before = missing@;
            if self.slots[i].is_none() {
                missing.push(action_type);
                proof {
                    assert(missing@[before.len() as int] == action_type);
                    assert forall|t: DomainActionTypes| missing@.contains(t) <==> (slot_of(t) < i + 1
                        && !self@.contains_key(t)) by {
                        if missing@.contains(t) {
                            let k = choose|k: int| 0 <= k < missing@.len() && missing@[k] == t;
                            if k < before.len() {
                                assert(before[k] == t);
                                assert(before.contains(t));
                            }
                        }
                        if slot_of(t) < i + 1 && !self@.contains_key(t) {
                            if slot_of(t) < i {
                                assert(before.contains(t));
                                let k = choose|k: int| 0 <= k < before.len() && before[k] == t;
                                assert(missing@[k] == t);
                            } else {
                                assert(t == action_type);
                            }
                        }
                    }
                }
            } else {
                proof {
                    assert forall|t: DomainActionTypes| missing@.contains(t) <==> (slot_of(t) < i + 1
                        && !self@.contains_key(t)) by {
                        if slot_of(t) == i {
                            assert(t == action_type);
                        }
                    }
                }
            }
            i += 1;
        }
        missing
    }

    /// Whether an executor is registered for `action_type`.
    pub fn has_executor_for(&self, action_type: DomainActionTypes) -> (known: bool)
        requires
            self.wf(),
        ensures
            known == self@.contains_key(action_type),
    {
        self.get_executor_for(action_type).is_some()
    }
}

/// Router override. Of two executors registered for one action type only
/// the second is in effect: the router is as if the first had never been
/// registered.
pub proof fn last_registration_wins<E>(
    routes: Map<DomainActionTypes, E>,
    action_type: DomainActionTypes,
    first: E,
    second: E,
)
    ensures
        routes.insert(action_type, first).insert(action_type, second) == routes.insert(
            action_type,
            second,
        ),
        routes.insert(action_type, first).insert(action_type, second)[action_type] == second,
        forall|other: DomainActionTypes|
            other != action_type ==> (routes.insert(action_type, first).insert(
                action_type,
                second,
            ).contains_key(other) <==> routes.contains_key(other)),
{
    assert(routes.insert(action_type, first).insert(action_type, second) =~= routes.insert(
        action_type,
        second,
    ));
}

} // verus!
