use vstd::prelude::*;
use vstd::string::StringExecFns;
use crate::errors::{DatabaseError, ErrorCode};

verus! {

/// The kinds of work that can be queued. The type of an action selects the
/// executor that will carry it out.
#[derive(Clone, Copy, Debug, PartialEq, Eq, Hash, Structural)]
pub enum DomainActionTypes {
    SendEmail,
    RedeemOnChain,
    RegenerateDripActions,
    BroadcastPushNotification,
    ProcessTransferDrip,
    UpdateGenres,
}

/// Where an action stands in its life.
#[derive(Clone, Copy, Debug, PartialEq, Eq, Hash, Structural)]
pub enum DomainActionStatus {
    Pending,
    Busy,
    Success,
    Errored,
    Cancelled,
}

/// The business tables an action can belong to.
#[derive(Clone, Copy, Debug, PartialEq, Eq, Hash, Structural)]
pub enum Tables {
    Broadcasts,
    Events,
    Orders,
    Transfers,
}

/// Which side of a ticket transfer a drip notification addresses.
#[derive(Clone, Copy, Debug, PartialEq, Eq, Hash, Structural)]
pub enum SourceOrDestination {
    Source,
    Destination,
}

/// Payload of an action that broadcasts a push notification for an event.
#[derive(Clone, Copy, Debug, PartialEq, Eq, Structural)]
pub struct BroadcastPushNotificationAction {
    pub event_id: u128,
}

/// Payload of an action that sends the next drip notification of an event.
#[derive(Clone, Copy, Debug, PartialEq, Eq, Structural)]
pub struct ProcessTransferDripPayload {
    pub event_id: u128,
    pub source_or_destination: SourceOrDestination,
}

/// Payload of an action that recomputes the genres of an event.
#[derive(Clone, Copy, Debug, PartialEq, Eq, Structural)]
pub struct UpdateGenresPayload {
    pub user_id: Option<u128>,
}

/// The data that travels with an action. Only the executor of the action's
/// type interprets it; the queue checks no more than that its shape is the
/// one the type calls for.
#[derive(Debug, PartialEq, Eq)]
pub enum ActionPayload {
    /// No data.
    Empty,
    BroadcastPushNotification(BroadcastPushNotificationAction),
    ProcessTransferDrip(ProcessTransferDripPayload),
    UpdateGenres(UpdateGenresPayload),
    /// Structured text whose meaning is the executor's business.
    Text(String),
}

/// What a payload is, with its text as a sequence of characters.
pub enum ActionPayloadView {
    Empty,
    BroadcastPushNotification(BroadcastPushNotificationAction),
    ProcessTransferDrip(ProcessTransferDripPayload),
    UpdateGenres(UpdateGenresPayload),
    Text(Seq<char>),
}

impl View for ActionPayload {
    type V = ActionPayloadView;

    open spec fn view(&self) -> ActionPayloadView {
        match self {
            ActionPayload::Empty => ActionPayloadView::Empty,
            ActionPayload::BroadcastPushNotification(p) => ActionPayloadView::BroadcastPushNotification(*p),
            ActionPayload::ProcessTransferDrip(p) => ActionPayloadView::ProcessTransferDrip(*p),
            ActionPayload::UpdateGenres(p) => ActionPayloadView::UpdateGenres(*p),
            ActionPayload::Text(t) => ActionPayloadView::Text(t@),
        }
    }
}

impl Clone for ActionPayload {
    fn clone(&self) -> (copy: ActionPayload)
        ensures
            copy@ == self@,
    {
        match self {
            ActionPayload::Empty => ActionPayload::Empty,
            ActionPayload::BroadcastPushNotification(p) => ActionPayload::BroadcastPushNotification(*p),
            ActionPayload::ProcessTransferDrip(p) => ActionPayload::ProcessTransferDrip(*p),
            ActionPayload::UpdateGenres(p) => ActionPayload::UpdateGenres(*p),
            ActionPayload::Text(t) => ActionPayload::Text(t.clone()),
        }
    }
}

/// Whether a payload has the shape that actions of the given type carry.
pub open spec fn payload_fits(action_type: DomainActionTypes, payload: ActionPayloadView) -> bool {
    match action_type {
        DomainActionTypes::SendEmail => payload is Text,
        DomainActionTypes::RedeemOnChain => payload is Text,
        DomainActionTypes::RegenerateDripActions => payload is Empty,
        DomainActionTypes::BroadcastPushNotification => payload is BroadcastPushNotification,
        DomainActionTypes::ProcessTransferDrip => payload is ProcessTransferDrip,
        DomainActionTypes::UpdateGenres => payload is UpdateGenres,
    }
}

/// The name under which an action type is written down.
pub open spec fn name_of_type(action_type: DomainActionTypes) -> Seq<char> {
    match action_type {
        DomainActionTypes::SendEmail => "SendEmail"@,
        DomainActionTypes::RedeemOnChain => "RedeemOnChain"@,
        DomainActionTypes::RegenerateDripActions => "RegenerateDripActions"@,
        DomainActionTypes::BroadcastPushNotification => "BroadcastPushNotification"@,
        DomainActionTypes::ProcessTransferDrip => "ProcessTransferDrip"@,
        DomainActionTypes::UpdateGenres => "UpdateGenres"@,
    }
}

/// The action type that is written down under a name, if there is one.
pub open spec fn type_called(name: Seq<char>) -> Option<DomainActionTypes> {
    if name == name_of_type(DomainActionTypes::SendEmail) {
        Some(DomainActionTypes::SendEmail)
    } else if name == name_of_type(DomainActionTypes::RedeemOnChain) {
        Some(DomainActionTypes::RedeemOnChain)
    } else if name == name_of_type(DomainActionTypes::RegenerateDripActions) {
        Some(DomainActionTypes::RegenerateDripActions)
    } else if name == name_of_type(DomainActionTypes::BroadcastPushNotification) {
        Some(DomainActionTypes::BroadcastPushNotification)
    } else if name == name_of_type(DomainActionTypes::ProcessTransferDrip) {
        Some(DomainActionTypes::ProcessTransferDrip)
    } else if name == name_of_type(DomainActionTypes::UpdateGenres) {
        Some(DomainActionTypes::UpdateGenres)
    } else {
        None
    }
}

/// Every action type is read back from its own name, and only from it: a
/// name that reads as a type is the name of that type.
pub proof fn type_names_are_told_apart(action_type: DomainActionTypes, name: Seq<char>)
    ensures
        type_called(name_of_type(action_type)) == Some(action_type),
        type_called(name) == Some(action_type) <==> name == name_of_type(action_type),
{
    reveal_strlit("SendEmail");
    reveal_strlit("RedeemOnChain");
    reveal_strlit("RegenerateDripActions");
    reveal_strlit("BroadcastPushNotification");
    reveal_strlit("ProcessTransferDrip");
    reveal_strlit("UpdateGenres");
    assert(name_of_type(DomainActionTypes::SendEmail).len() == 9);
    assert(name_of_type(DomainActionTypes::RedeemOnChain).len() == 13);
    assert(name_of_type(DomainActionTypes::RegenerateDripActions).len() == 21);
    assert(name_of_type(DomainActionTypes::BroadcastPushNotification).len() == 25);
    assert(name_of_type(DomainActionTypes::ProcessTransferDrip).len() == 19);
    assert(name_of_type(DomainActionTypes::UpdateGenres).len() == 12);
}

impl DomainActionTypes {
    /// The name under which the type is written down.
    pub fn name(&self) -> (name: String)
        ensures
            name@ == name_of_type(*self),
    {
        match self {
            DomainActionTypes::SendEmail => String::from_str("SendEmail"),
            DomainActionTypes::RedeemOnChain => String::from_str("RedeemOnChain"),
            DomainActionTypes::RegenerateDripActions => String::from_str("RegenerateDripActions"),
            DomainActionTypes::BroadcastPushNotification => String::from_str(
                "BroadcastPushNotification",
            ),
            DomainActionTypes::ProcessTransferDrip => String::from_str("ProcessTransferDrip"),
            DomainActionTypes::UpdateGenres => String::from_str("UpdateGenres"),
        }
    }

    /// The type that is written down under the name. A name that is the
    /// name of no type is refused with `ValidationError`.
    pub fn parse(name: &str) -> (outcome: Result<DomainActionTypes, DatabaseError>)
        ensures
            match type_called(name@) {
                Some(action_type) => outcome == Ok::<DomainActionTypes, DatabaseError>(action_type),
                None => outcome == Err::<DomainActionTypes, DatabaseError>(
                    DatabaseError { error_code: ErrorCode::ValidationError },
                ),
            },
    {
        let given = String::from_str(name);
        if given == DomainActionTypes::SendEmail.name() {
            Ok(DomainActionTypes::SendEmail)
        } else if given == DomainActionTypes::RedeemOnChain.name() {
            Ok(DomainActionTypes::RedeemOnChain)
        } else if given == DomainActionTypes::RegenerateDripActions.name() {
            Ok(DomainActionTypes::RegenerateDripActions)
        } else if given == DomainActionTypes::BroadcastPushNotification.name() {
            Ok(DomainActionTypes::BroadcastPushNotification)
        } else if given == DomainActionTypes::ProcessTransferDrip.name() {
            Ok(DomainActionTypes::ProcessTransferDrip)
        } else if given == DomainActionTypes::UpdateGenres.name() {
            Ok(DomainActionTypes::UpdateGenres)
        } else {
            Err(DatabaseError::validation_error())
        }
    }
}

/// The name under which a business table is written down.
pub open spec fn name_of_table(table: Tables) -> Seq<char> {
    match table {
        Tables::Broadcasts => "Broadcasts"@,
        Tables::Events => "Events"@,
        Tables::Orders => "Orders"@,
        Tables::Transfers => "Transfers"@,
    }
}

impl Tables {
    /// The name under which the table is written down.
    pub fn name(&self) -> (name: String)
        ensures
            name@ == name_of_table(*self),
    {
        match self {
            Tables::Broadcasts => String::from_str("Broadcasts"),
            Tables::Events => String::from_str("Events"),
            Tables::Orders => String::from_str("Orders"),
            Tables::Transfers => String::from_str("Transfers"),
        }
    }
}

/// A status from which an action never moves again.
pub open spec fn is_terminal(status: DomainActionStatus) -> bool {
    status is Success || status is Errored || status is Cancelled
}

impl DomainActionStatus {
    /// Whether the status is one from which an action never moves again.
    pub fn is_terminal(&self) -> (terminal: bool)
        ensures
            terminal == is_terminal(*self),
    {
        match self {
            DomainActionStatus::Success => true,
            DomainActionStatus::Errored => true,
            DomainActionStatus::Cancelled => true,
            DomainActionStatus::Pending => false,
            DomainActionStatus::Busy => false,
        }
    }
}

impl ActionPayload {
    /// Whether the payload has the shape that actions of the given type
    /// carry.
    pub fn fits(&self, action_type: DomainActionTypes) -> (fits: bool)
        ensures
            fits == payload_fits(action_type, self@),
    {
        match action_type {
            DomainActionTypes::SendEmail => matches!(self, ActionPayload::Text(_)),
            DomainActionTypes::RedeemOnChain => matches!(self, ActionPayload::Text(_)),
            DomainActionTypes::RegenerateDripActions => matches!(self, ActionPayload::Empty),
            DomainActionTypes::BroadcastPushNotification => matches!(
                self,
                ActionPayload::BroadcastPushNotification(_)
            ),
            DomainActionTypes::ProcessTransferDrip => matches!(
                self,
                ActionPayload::ProcessTransferDrip(_)
            ),
            DomainActionTypes::UpdateGenres => matches!(self, ActionPayload::UpdateGenres(_)),
        }
    }
}

/// A unit of work as the store holds it. Times are seconds of the store's
/// clock.
#[derive(Debug, PartialEq, Eq)]
pub struct DomainAction {
    pub id: u128,
    pub domain_action_type: DomainActionTypes,
    pub payload: ActionPayload,
    /// The business table the action belongs to, if any.
    pub main_table: Option<Tables>,
    /// The row of `main_table` the action belongs to.
    pub main_table_id: Option<u128>,
    pub status: DomainActionStatus,
    /// The action may not run before this time.
    pub scheduled_at: i64,
    /// When the lease taken last runs out; `None` until a worker first
    /// leases the action.
    pub busy_until: Option<i64>,
    /// What went wrong, once the action has failed.
    pub last_error: Option<String>,
    pub created_at: i64,
    pub updated_at: i64,
}

/// What an action is, with its texts as sequences of characters.
pub struct DomainActionView {
    pub id: u128,
    pub domain_action_type: DomainActionTypes,
    pub payload: ActionPayloadView,
    pub main_table: Option<Tables>,
    pub main_table_id: Option<u128>,
    pub status: DomainActionStatus,
    pub scheduled_at: i64,
    pub busy_until: Option<i64>,
    pub last_error: Option<Seq<char>>,
    pub created_at: i64,
    pub updated_at: i64,
}

/// The characters of a text that may be absent.
pub open spec fn text_view(text: Option<String>) -> Option<Seq<char>> {
    match text {
        Some(t) => Some(t@),
        None => None,
    }
}

impl View for DomainAction {
    type V = DomainActionView;

    open spec fn view(&self) -> DomainActionView {
        DomainActionView {
            id: self.id,
            domain_action_type: self.domain_action_type,
            payload: self.payload@,
            main_table: self.main_table,
            main_table_id: self.main_table_id,
            status: self.status,
            scheduled_at: self.scheduled_at,
            busy_until: self.busy_until,
            last_error: text_view(self.last_error),
            created_at: self.created_at,
            updated_at: self.updated_at,
        }
    }
}

impl Clone for DomainAction {
    fn clone(&self) -> (copy: DomainAction)
        ensures
            copy@ == self@,
    {
        let last_error = match &self.last_error {
            Some(text) => Some(text.clone()),
            None => None,
        };
        DomainAction {
            id: self.id,
            domain_action_type: self.domain_action_type,
            payload: self.payload.clone(),
            main_table: self.main_table,
            main_table_id: self.main_table_id,
            status: self.status,
            scheduled_at: self.scheduled_at,
            busy_until: self.busy_until,
            last_error,
            created_at: self.created_at,
            updated_at: self.updated_at,
        }
    }
}

/// An action that has not been stored yet.
#[derive(Debug, PartialEq, Eq)]
pub struct NewDomainAction {
    pub domain_action_type: DomainActionTypes,
    pub payload: ActionPayload,
    pub main_table: Option<Tables>,
    pub main_table_id: Option<u128>,
    /// When the action is to run; `None` stands for the time at which it is
    /// stored.
    pub scheduled_at: Option<i64>,
}

/// What an action that has not been stored yet is.
pub struct NewDomainActionView {
    pub domain_action_type: DomainActionTypes,
    pub payload: ActionPayloadView,
    pub main_table: Option<Tables>,
    pub main_table_id: Option<u128>,
    pub scheduled_at: Option<i64>,
}

impl View for NewDomainAction {
    type V = NewDomainActionView;

    open spec fn view(&self) -> NewDomainActionView {
        NewDomainActionView {
            domain_action_type: self.domain_action_type,
            payload: self.payload@,
            main_table: self.main_table,
            main_table_id: self.main_table_id,
            scheduled_at: self.scheduled_at,
        }
    }
}

/// The action that storing `new` under `id` at time `now` brings into
/// being: pending, never leased, due at the time asked for or else at once.
pub open spec fn stored(new: NewDomainActionView, id: u128, now: i64) -> DomainActionView {
    DomainActionView {
        id,
        domain_action_type: new.domain_action_type,
        payload: new.payload,
        main_table: new.main_table,
        main_table_id: new.main_table_id,
        status: DomainActionStatus::Pending,
        scheduled_at: match new.scheduled_at {
            Some(at) => at,
            None => now,
        },
        busy_until: None,
        last_error: None,
        created_at: now,
        updated_at: now,
    }
}

impl DomainAction {
    /// Describes a new action of the given type for the given business row.
    /// It is due as soon as it is stored unless `schedule_at` says otherwise.
    pub fn create(
        domain_action_type: DomainActionTypes,
        payload: ActionPayload,
        main_table: Option<Tables>,
        main_table_id: Option<u128>,
    ) -> (new: NewDomainAction)
        ensures
            new@ == (NewDomainActionView {
                domain_action_type,
                payload: payload@,
                main_table,
                main_table_id,
                scheduled_at: None,
            }),
    {
        NewDomainAction {
            domain_action_type,
            payload,
            main_table,
            main_table_id,
            scheduled_at: None,
        }
    }
}

impl NewDomainAction {
    /// Puts off the action until `scheduled_at`.
    pub fn schedule_at(&mut self, scheduled_at: i64)
        ensures
            final(self)@ == (NewDomainActionView {
                scheduled_at: Some(scheduled_at),
                ..old(self)@
            }),
    {
        self.scheduled_at = Some(scheduled_at);
    }
}

} // verus!
