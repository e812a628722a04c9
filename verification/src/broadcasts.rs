use vstd::prelude::*;
use crate::action_store::{holds_random_id, insert_result, ActionStore};
use crate::domain_actions::{
    stored, ActionPayload, ActionPayloadView, BroadcastPushNotificationAction, DomainAction,
    DomainActionTypes, DomainActionView, NewDomainActionView, Tables,
};
use crate::errors::{DatabaseError, ErrorCode};
use crate::ids::{is_random_id, random_id};

verus! {

/// What a broadcast says.
#[derive(Clone, Copy, Debug, PartialEq, Eq, Structural)]
pub enum BroadcastType {
    /// A message of the sender's own.
    Custom,
    /// The standing last call.
    LastCall,
}

/// How a broadcast reaches its audience.
#[derive(Clone, Copy, Debug, PartialEq, Eq, Structural)]
pub enum BroadcastChannel {
    PushNotification,
}

/// Where a broadcast stands.
#[derive(Clone, Copy, Debug, PartialEq, Eq, Structural)]
pub enum BroadcastStatus {
    Pending,
    InProgress,
    Completed,
    Cancelled,
}

/// A broadcast that has not been stored yet.
#[derive(Debug, PartialEq, Eq)]
pub struct NewBroadcast {
    pub event_id: u128,
    pub notification_type: BroadcastType,
    pub channel: BroadcastChannel,
    pub name: String,
    pub message: Option<String>,
    /// When the broadcast is to go out; `None` stands for at once.
    pub send_at: Option<i64>,
    pub status: BroadcastStatus,
    pub progress: i32,
}

/// A message to the audience of an event.
#[derive(Debug, PartialEq, Eq)]
pub struct Broadcast {
    pub id: u128,
    pub event_id: u128,
    pub notification_type: BroadcastType,
    pub channel: BroadcastChannel,
    pub name: String,
    pub message: Option<String>,
    pub send_at: Option<i64>,
    pub status: BroadcastStatus,
    pub progress: i32,
    pub created_at: i64,
    pub updated_at: i64,
}

/// The changes to make to a broadcast. `None` leaves a field as it is; for
/// the message and the time, `Some(None)` clears the field.
#[derive(Debug, PartialEq, Eq)]
pub struct BroadcastEditableAttributes {
    pub notification_type: Option<BroadcastType>,
    pub channel: Option<BroadcastChannel>,
    pub name: Option<String>,
    pub message: Option<Option<String>>,
    pub send_at: Option<Option<i64>>,
    pub status: Option<BroadcastStatus>,
}

/// A broadcast of the sender's own has a message, and the message is not
/// empty. A last call needs none.
pub open spec fn message_is_valid(
    notification_type: BroadcastType,
    message: Option<String>,
) -> bool {
    match notification_type {
        BroadcastType::LastCall => true,
        BroadcastType::Custom => message matches Some(text) && text@.len() > 0,
    }
}

/// The type a broadcast has after the changes.
pub open spec fn type_after(
    broadcast: Broadcast,
    attributes: BroadcastEditableAttributes,
) -> BroadcastType {
    match attributes.notification_type {
        Some(t) => t,
        None => broadcast.notification_type,
    }
}

/// The message a broadcast has after the changes.
pub open spec fn message_after(
    broadcast: Broadcast,
    attributes: BroadcastEditableAttributes,
) -> Option<String> {
    match attributes.message {
        Some(m) => m,
        None => broadcast.message,
    }
}

/// The broadcast once the changes have been made at `now`.
pub open spec fn updated(
    broadcast: Broadcast,
    attributes: BroadcastEditableAttributes,
    now: i64,
) -> Broadcast {
    Broadcast {
        id: broadcast.id,
        event_id: broadcast.event_id,
        notification_type: type_after(broadcast, attributes),
        channel: match attributes.channel {
            Some(c) => c,
            None => broadcast.channel,
        },
        name: match attributes.name {
            Some(n) => n,
            None => broadcast.name,
        },
        message: message_after(broadcast, attributes),
        send_at: match attributes.send_at {
            Some(at) => at,
            None => broadcast.send_at,
        },
        status: match attributes.status {
            Some(s) => s,
            None => broadcast.status,
        },
        progress: broadcast.progress,
        created_at: broadcast.created_at,
        updated_at: now,
    }
}

/// The changes that set the status and touch nothing else.
pub open spec fn status_only(status: BroadcastStatus) -> BroadcastEditableAttributes {
    BroadcastEditableAttributes {
        notification_type: None,
        channel: None,
        name: None,
        message: None,
        send_at: None,
        status: Some(status),
    }
}

/// What an attempt to change a broadcast at `now` comes to: a broadcast
/// that was cancelled cannot be changed; one that would be left with an
/// invalid message is refused; otherwise the changes are made.
pub open spec fn update_result(
    broadcast: Broadcast,
    attributes: BroadcastEditableAttributes,
    now: i64,
) -> Result<Broadcast, ErrorCode> {
    if broadcast.status == BroadcastStatus::Cancelled {
        Err(ErrorCode::UpdateError)
    } else if !message_is_valid(
        type_after(broadcast, attributes),
        message_after(broadcast, attributes),
    ) {
        Err(ErrorCode::ValidationError)
    } else {
        Ok(updated(broadcast, attributes, now))
    }
}

/// The broadcast that storing `new` under `id` at `now` brings into being.
pub open spec fn stored_broadcast(new: NewBroadcast, id: u128, now: i64) -> Broadcast {
    Broadcast {
        id,
        event_id: new.event_id,
        notification_type: new.notification_type,
        channel: new.channel,
        name: new.name,
        message: new.message,
        send_at: new.send_at,
        status: new.status,
        progress: new.progress,
        created_at: now,
        updated_at: now,
    }
}

/// The request for the action that sends a broadcast: due when the
/// broadcast is to go out.
pub open spec fn broadcast_request(
    event_id: u128,
    broadcast_id: u128,
    send_at: Option<i64>,
) -> NewDomainActionView {
    NewDomainActionView {
        domain_action_type: DomainActionTypes::BroadcastPushNotification,
        payload: ActionPayloadView::BroadcastPushNotification(
            BroadcastPushNotificationAction { event_id },
        ),
        main_table: Some(Tables::Broadcasts),
        main_table_id: Some(broadcast_id),
        scheduled_at: send_at,
    }
}

fn copy_of(text: &Option<String>) -> (copy: Option<String>)
    ensures
        copy == *text,
{
    match text {
        Some(t) => Some(t.clone()),
        None => None,
    }
}

fn custom_type_has_message(
    notification_type: BroadcastType,
    message: &Option<String>,
) -> (valid: bool)
    ensures
        valid == message_is_valid(notification_type, *message),
{
    match notification_type {
        BroadcastType::LastCall => true,
        BroadcastType::Custom => match message {
            Some(text) => text.as_str().unicode_len() > 0,
            None => false,
        },
    }
}

impl Broadcast {
    /// Describes a new broadcast for an event: pending unless a status is
    /// given, with no progress made.
    pub fn create(
        event_id: u128,
        notification_type: BroadcastType,
        channel: BroadcastChannel,
        name: String,
        message: Option<String>,
        send_at: Option<i64>,
        status: Option<BroadcastStatus>,
    ) -> (new: NewBroadcast)
        ensures
            new == (NewBroadcast {
                event_id,
                notification_type,
                channel,
                name,
                message,
                send_at,
                status: match status {
                    Some(s) => s,
                    None => BroadcastStatus::Pending,
                },
                progress: 0,
            }),
    {
        NewBroadcast {
            event_id,
            notification_type,
            channel,
            name,
            message,
            send_at,
            status: match status {
                Some(s) => s,
                None => BroadcastStatus::Pending,
            },
            progress: 0,
        }
    }

    /// Whether the broadcast would be left with a valid message by the
    /// changes. Refused with `ValidationError` where it would not.
    pub fn validate_record(&self, attributes: &BroadcastEditableAttributes) -> (outcome: Result<
        (),
        DatabaseError,
    >)
        ensures
            outcome is Ok <==> message_is_valid(
                type_after(*self, *attributes),
                message_after(*self, *attributes),
            ),
            outcome is Err ==> outcome.unwrap_err().error_code == ErrorCode::ValidationError,
    {
        let notification_type = match attributes.notification_type {
            Some(t) => t,
            None => self.notification_type,
        };
        let valid = match &attributes.message {
            Some(message) => custom_type_has_message(notification_type, message),
            None => custom_type_has_message(notification_type, &self.message),
        };
        if valid {
            Ok(())
        } else {
            Err(DatabaseError::validation_error())
        }
    }

    /// Makes the changes at `now` and returns the broadcast as it then is:
    /// see `update_result`.
    pub fn update(&self, attributes: BroadcastEditableAttributes, now: i64) -> (outcome: Result<
        Broadcast,
        DatabaseError,
    >)
        ensures
            match update_result(*self, attributes, now) {
                Ok(broadcast) => outcome == Ok::<Broadcast, DatabaseError>(broadcast),
                Err(code) => outcome == Err::<Broadcast, DatabaseError>(
                    DatabaseError { error_code: code },
                ),
            },
    {
        if matches!(self.status, BroadcastStatus::Cancelled) {
            return Err(DatabaseError::new(ErrorCode::UpdateError));
        }
        match self.validate_record(&attributes) {
            Ok(()) => {},
            Err(e) => {
                return Err(e);
            },
        }
        Ok(
            Broadcast {
                id: self.id,
                event_id: self.event_id,
                notification_type: match attributes.notification_type {
                    Some(t) => t,
                    None => self.notification_type,
                },
                channel: match attributes.channel {
                    Some(c) => c,
                    None => self.channel,
                },
                name: match attributes.name {
                    Some(n) => n,
                    None => self.name.clone(),
                },
                message: match attributes.message {
                    Some(m) => m,
                    None => copy_of(&self.message),
                },
                send_at: match attributes.send_at {
                    Some(at) => at,
                    None => self.send_at,
                },
                status: match attributes.status {
                    Some(s) => s,
                    None => self.status,
                },
                progress: self.progress,
                created_at: self.created_at,
                updated_at: now,
            },
        )
    }

    /// Cancels the broadcast at `now`. A broadcast that was cancelled
    /// before cannot be cancelled again: see `update_result`.
    pub fn cancel(&self, now: i64) -> (outcome: Result<Broadcast, DatabaseError>)
        ensures
            match update_result(*self, status_only(BroadcastStatus::Cancelled), now) {
                Ok(broadcast) => outcome == Ok::<Broadcast, DatabaseError>(broadcast),
                Err(code) => outcome == Err::<Broadcast, DatabaseError>(
                    DatabaseError { error_code: code },
                ),
            },
    {
        let attributes = BroadcastEditableAttributes {
            notification_type: None,
            channel: None,
            name: None,
            message: None,
            send_at: None,
            status: Some(BroadcastStatus::Cancelled),
        };
        self.update(attributes, now)
    }

    /// Marks the broadcast at `now` as being sent: see `update_result`.
    pub fn set_in_progress(self, now: i64) -> (outcome: Result<Broadcast, DatabaseError>)
        ensures
            match update_result(self, status_only(BroadcastStatus::InProgress), now) {
                Ok(broadcast) => outcome == Ok::<Broadcast, DatabaseError>(broadcast),
                Err(code) => outcome == Err::<Broadcast, DatabaseError>(
                    DatabaseError { error_code: code },
                ),
            },
    {
        let attributes = BroadcastEditableAttributes {
            notification_type: None,
            channel: None,
            name: None,
            message: None,
            send_at: None,
            status: Some(BroadcastStatus::InProgress),
        };
        self.update(attributes, now)
    }
}

impl NewBroadcast {
    /// Whether the broadcast has a valid message. Refused with
    /// `ValidationError` where it has not.
    pub fn validate_record(&self) -> (outcome: Result<(), DatabaseError>)
        ensures
            outcome is Ok <==> message_is_valid(self.notification_type, self.message),
            outcome is Err ==> outcome.unwrap_err().error_code == ErrorCode::ValidationError,
    {
        if custom_type_has_message(self.notification_type, &self.message) {
            Ok(())
        } else {
            Err(DatabaseError::validation_error())
        }
    }

    /// Stores the broadcast under the id the caller has drawn for it and
    /// queues the action that sends it, due when the broadcast is to go
    /// out. Refused with `ValidationError` where the message is not valid;
    /// the id that was drawn for the action being taken already is the only
    /// other way to fail. Nothing is queued where the broadcast is refused.
    pub fn commit_as(&self, id: u128, store: &mut ActionStore, now: i64) -> (outcome: Result<
        (Broadcast, DomainAction),
        DatabaseError,
    >)
        requires
            old(store).wf(),
        ensures
            final(store).wf(),
            outcome is Err && outcome.unwrap_err().error_code == ErrorCode::DuplicateKeyError
                ==> holds_random_id(old(store)@),
            message_is_valid(self.notification_type, self.message) && !holds_random_id(
                old(store)@,
            ) ==> outcome is Ok,
            !message_is_valid(self.notification_type, self.message) <==> (outcome is Err
                && outcome.unwrap_err().error_code == ErrorCode::ValidationError),
            match outcome {
                Ok((broadcast, action)) => {
                    &&& broadcast == stored_broadcast(*self, id, now)
                    &&& action@ == stored(
                        broadcast_request(self.event_id, id, self.send_at),
                        action.id,
                        now,
                    )
                    &&& insert_result(
                        old(store)@,
                        broadcast_request(self.event_id, id, self.send_at),
                        action.id,
                        now,
                    ) == Ok::<Seq<DomainActionView>, ErrorCode>(final(store)@)
                },
                Err(e) => final(store)@ == old(store)@ && (e.error_code
                    == ErrorCode::ValidationError || e.error_code == ErrorCode::DuplicateKeyError),
            },
    {
        match self.validate_record() {
            Ok(()) => {},
            Err(e) => {
                return Err(e);
            },
        }
        let broadcast = Broadcast {
            id,
            event_id: self.event_id,
            notification_type: self.notification_type,
            channel: self.channel,
            name: self.name.clone(),
            message: copy_of(&self.message),
            send_at: self.send_at,
            status: self.status,
            progress: self.progress,
            created_at: now,
            updated_at: now,
        };
        let mut action = DomainAction::create(
            DomainActionTypes::BroadcastPushNotification,
            ActionPayload::BroadcastPushNotification(
                BroadcastPushNotificationAction { event_id: self.event_id },
            ),
            Some(Tables::Broadcasts),
            Some(id),
        );
        match self.send_at {
            Some(send_at) => {
                action.schedule_at(send_at);
            },
            None => {},
        }
        match action.commit(store, now) {
            Ok(queued) => Ok((broadcast, queued)),
            Err(e) => Err(e),
        }
    }

    /// Stores the broadcast under a fresh id and queues the action that
    /// sends it: see `commit_as`.
    pub fn commit(
        &self,
        store: &mut ActionStore,
        now: i64,
    ) -> (outcome: Result<Broadcast, DatabaseError>)
        requires
            old(store).wf(),
        ensures
            final(store).wf(),
            outcome is Err && outcome.unwrap_err().error_code == ErrorCode::DuplicateKeyError
                ==> holds_random_id(old(store)@),
            message_is_valid(self.notification_type, self.message) && !holds_random_id(
                old(store)@,
            ) ==> outcome is Ok,
            !message_is_valid(self.notification_type, self.message) <==> (outcome is Err
                && outcome.unwrap_err().error_code == ErrorCode::ValidationError),
            match outcome {
                Ok(broadcast) => {
                    &&& is_random_id(broadcast.id)
                    &&& broadcast == stored_broadcast(*self, broadcast.id, now)
                    &&& exists|action_id: u128|
                        insert_result(
                            old(store)@,
                            broadcast_request(self.event_id, broadcast.id, self.send_at),
                            action_id,
                            now,
                        ) == Ok::<Seq<DomainActionView>, ErrorCode>(final(store)@)
                },
                Err(e) => final(store)@ == old(store)@ && (e.error_code
                    == ErrorCode::ValidationError || e.error_code == ErrorCode::DuplicateKeyError),
            },
    {
        let id = random_id();
        match self.commit_as(id, store, now) {
            Ok((broadcast, _)) => Ok(broadcast),
            Err(e) => Err(e),
        }
    }
}

} // verus!
