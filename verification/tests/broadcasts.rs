use domain_actions::action_store::ActionStore;
use domain_actions::broadcasts::{
    Broadcast, BroadcastChannel, BroadcastEditableAttributes, BroadcastStatus, BroadcastType,
};
use domain_actions::domain_actions::{
    ActionPayload, BroadcastPushNotificationAction, DomainActionStatus, DomainActionTypes, Tables,
};
use domain_actions::errors::{DatabaseError, ErrorCode, ErrorKind};
use domain_actions::ids::has_random_format;

fn no_change() -> BroadcastEditableAttributes {
    BroadcastEditableAttributes {
        notification_type: None,
        channel: None,
        name: None,
        message: None,
        send_at: None,
        status: None,
    }
}

fn last_call() -> Broadcast {
    let mut store = ActionStore::new();
    Broadcast::create(
        3,
        BroadcastType::LastCall,
        BroadcastChannel::PushNotification,
        "Doors".to_string(),
        None,
        None,
        None,
    )
    .commit(&mut store, 100)
    .unwrap()
}

#[test]
fn create_defaults_to_pending_without_progress() {
    let new = Broadcast::create(
        3,
        BroadcastType::Custom,
        BroadcastChannel::PushNotification,
        "Hello".to_string(),
        Some("Come in".to_string()),
        Some(500),
        None,
    );
    assert_eq!(new.event_id, 3);
    assert_eq!(new.status, BroadcastStatus::Pending);
    assert_eq!(new.progress, 0);
    assert_eq!(new.send_at, Some(500));
    let given = Broadcast::create(
        3,
        BroadcastType::LastCall,
        BroadcastChannel::PushNotification,
        "x".to_string(),
        None,
        None,
        Some(BroadcastStatus::InProgress),
    );
    assert_eq!(given.status, BroadcastStatus::InProgress);
}

#[test]
fn custom_broadcast_needs_a_message() {
    let custom = |message: Option<&str>| {
        Broadcast::create(
            3,
            BroadcastType::Custom,
            BroadcastChannel::PushNotification,
            "n".to_string(),
            message.map(|m| m.to_string()),
            None,
            None,
        )
    };
    assert_eq!(custom(Some("hi")).validate_record(), Ok(()));
    assert_eq!(
        custom(Some("")).validate_record(),
        Err(DatabaseError { error_code: ErrorCode::ValidationError })
    );
    assert_eq!(
        custom(None).validate_record(),
        Err(DatabaseError { error_code: ErrorCode::ValidationError })
    );
    let call = Broadcast::create(
        3,
        BroadcastType::LastCall,
        BroadcastChannel::PushNotification,
        "n".to_string(),
        None,
        None,
        None,
    );
    assert_eq!(call.validate_record(), Ok(()));
}

#[test]
fn commit_queues_the_action_for_the_time_of_sending() {
    let mut store = ActionStore::new();
    let new = Broadcast::create(
        3,
        BroadcastType::Custom,
        BroadcastChannel::PushNotification,
        "Hello".to_string(),
        Some("Come in".to_string()),
        Some(500),
        None,
    );
    let stored = new.commit(&mut store, 100).unwrap();
    assert!(has_random_format(stored.id));
    assert_eq!(stored.event_id, 3);
    assert_eq!(stored.name, "Hello");
    assert_eq!(stored.message, Some("Come in".to_string()));
    assert_eq!(stored.send_at, Some(500));
    assert_eq!(stored.status, BroadcastStatus::Pending);
    assert_eq!(stored.created_at, 100);
    assert_eq!(stored.updated_at, 100);

    let actions = store.all();
    assert_eq!(actions.len(), 1);
    assert_eq!(actions[0].domain_action_type, DomainActionTypes::BroadcastPushNotification);
    assert_eq!(
        actions[0].payload,
        ActionPayload::BroadcastPushNotification(BroadcastPushNotificationAction { event_id: 3 })
    );
    assert_eq!(actions[0].main_table, Some(Tables::Broadcasts));
    assert_eq!(actions[0].main_table_id, Some(stored.id));
    assert_eq!(actions[0].scheduled_at, 500);
    assert_eq!(actions[0].status, DomainActionStatus::Pending);
    assert!(store.find_pending(None, 499).is_empty());
    assert_eq!(store.find_pending(None, 500).len(), 1);
}

#[test]
fn commit_as_uses_the_id_it_is_given() {
    let mut store = ActionStore::new();
    let new = Broadcast::create(
        3,
        BroadcastType::LastCall,
        BroadcastChannel::PushNotification,
        "Doors".to_string(),
        None,
        None,
        None,
    );
    let (stored, action) = new.commit_as(77, &mut store, 100).unwrap();
    assert_eq!(stored.id, 77);
    assert_eq!(action.main_table_id, Some(77));
    assert_eq!(action.scheduled_at, 100);
    assert_eq!(store.find(action.id).unwrap(), action);
}

#[test]
fn commit_refuses_an_invalid_broadcast_and_queues_nothing() {
    let mut store = ActionStore::new();
    let new = Broadcast::create(
        3,
        BroadcastType::Custom,
        BroadcastChannel::PushNotification,
        "Hello".to_string(),
        None,
        None,
        None,
    );
    let refused = new.commit(&mut store, 100).unwrap_err();
    assert_eq!(refused.error_code, ErrorCode::ValidationError);
    assert_eq!(store.len(), 0);
}

#[test]
fn update_changes_what_is_given_and_keeps_the_rest() {
    let b = last_call();
    let changed = b
        .update(
            BroadcastEditableAttributes {
                notification_type: Some(BroadcastType::Custom),
                name: Some("New".to_string()),
                message: Some(Some("Text".to_string())),
                send_at: Some(Some(900)),
                ..no_change()
            },
            200,
        )
        .unwrap();
    assert_eq!(changed.id, b.id);
    assert_eq!(changed.event_id, 3);
    assert_eq!(changed.notification_type, BroadcastType::Custom);
    assert_eq!(changed.name, "New");
    assert_eq!(changed.message, Some("Text".to_string()));
    assert_eq!(changed.send_at, Some(900));
    assert_eq!(changed.status, BroadcastStatus::Pending);
    assert_eq!(changed.created_at, 100);
    assert_eq!(changed.updated_at, 200);

    let cleared = changed
        .update(
            BroadcastEditableAttributes {
                notification_type: Some(BroadcastType::LastCall),
                message: Some(None),
                send_at: Some(None),
                ..no_change()
            },
            300,
        )
        .unwrap();
    assert_eq!(cleared.message, None);
    assert_eq!(cleared.send_at, None);
    assert_eq!(cleared.name, "New");

    let same = b.update(no_change(), 400).unwrap();
    assert_eq!(same, Broadcast { updated_at: 400, ..last_call_like(&b) });
}

fn last_call_like(b: &Broadcast) -> Broadcast {
    Broadcast {
        id: b.id,
        event_id: b.event_id,
        notification_type: b.notification_type,
        channel: b.channel,
        name: b.name.clone(),
        message: b.message.clone(),
        send_at: b.send_at,
        status: b.status,
        progress: b.progress,
        created_at: b.created_at,
        updated_at: b.updated_at,
    }
}

#[test]
fn update_refuses_to_leave_a_custom_broadcast_without_message() {
    let b = last_call();
    let refused = b
        .update(
            BroadcastEditableAttributes {
                notification_type: Some(BroadcastType::Custom),
                ..no_change()
            },
            200,
        )
        .unwrap_err();
    assert_eq!(refused.error_code, ErrorCode::ValidationError);
    assert_eq!(
        b.validate_record(&BroadcastEditableAttributes {
            notification_type: Some(BroadcastType::Custom),
            message: Some(Some(String::new())),
            ..no_change()
        }),
        Err(DatabaseError { error_code: ErrorCode::ValidationError })
    );
    assert_eq!(b.validate_record(&no_change()), Ok(()));
}

#[test]
fn cancelled_broadcast_cannot_be_changed() {
    let b = last_call();
    let cancelled = b.cancel(200).unwrap();
    assert_eq!(cancelled.status, BroadcastStatus::Cancelled);
    assert_eq!(cancelled.updated_at, 200);
    let refused = cancelled.update(no_change(), 300).unwrap_err();
    assert_eq!(refused.error_code, ErrorCode::UpdateError);
    assert_eq!(refused.kind(), ErrorKind::BusinessRule);
    assert_eq!(refused.message(), "The record cannot be modified");
    assert_eq!(cancelled.cancel(300).unwrap_err().error_code, ErrorCode::UpdateError);
    assert_eq!(cancelled.set_in_progress(300).unwrap_err().error_code, ErrorCode::UpdateError);
}

#[test]
fn set_in_progress_changes_the_status_only() {
    let b = last_call();
    let id = b.id;
    let running = b.set_in_progress(250).unwrap();
    assert_eq!(running.status, BroadcastStatus::InProgress);
    assert_eq!(running.id, id);
    assert_eq!(running.name, "Doors");
    assert_eq!(running.updated_at, 250);
}
