use domain_actions::action_store::ActionStore;
use domain_actions::config::{Actix, Config, ConnectionPoolConfig};
use domain_actions::database::Database;
use domain_actions::domain_actions::{
    ActionPayload, DomainAction, DomainActionStatus, DomainActionTypes,
    ProcessTransferDripPayload, SourceOrDestination, Tables,
};
use domain_actions::domain_events::DomainEventTypes;
use domain_actions::ids::has_random_format;
use domain_actions::events::{
    Environment, Event, EventEditableAttributes, EventError, EventIssue, EventStatus, NewEvent,
    PastOrUpcoming, BEGINNING_OF_TIME,
    END_OF_TIME, SECONDS_PER_DAY, SECONDS_PER_HOUR, SECONDS_PER_MINUTE,
    TRANSFER_DRIP_NOTIFICATION_HOURS_PRIOR_TO_EVENT,
};

const DAY: i64 = 86_400;
const HOUR: i64 = 3_600;
const NOW: i64 = 1_600_000_000;

fn config() -> Config {
    Config {
        actix: Actix { workers: None },
        front_end_url: "https://front.test".to_string(),
        connection_pool: ConnectionPoolConfig { min: 1, max: 4 },
    }
}

fn event(start: Option<i64>) -> Event {
    Event {
        id: 42,
        name: "Gala".to_string(),
        organization_id: 7,
        venue_id: Some(9),
        event_start: start,
        door_time: start.map(|s| s - HOUR),
        event_end: start.map(|s| s + DAY),
        status: EventStatus::Draft,
        publish_date: None,
        promo_image_url: Some("https://img.test/gala.png".to_string()),
        cancelled_at: None,
        updated_at: 0,
    }
}

#[test]
fn constants_have_their_values() {
    assert_eq!(SECONDS_PER_MINUTE, 60);
    assert_eq!(SECONDS_PER_HOUR, 3_600);
    assert_eq!(SECONDS_PER_DAY, 86_400);
    assert_eq!(TRANSFER_DRIP_NOTIFICATION_HOURS_PRIOR_TO_EVENT, 3);
    assert_eq!(BEGINNING_OF_TIME, -2_208_945_600);
    assert_eq!(END_OF_TIME, 35_659_396_800);
}

#[test]
fn days_until_event_counts_full_days_with_an_hour_to_spare() {
    let days = |delta: i64| event(Some(NOW + delta)).days_until_event(NOW);
    assert_eq!(event(None).days_until_event(NOW), None);
    assert_eq!(days(0), Some(0));
    assert_eq!(days(22 * HOUR + 3_599), Some(0));
    assert_eq!(days(23 * HOUR), Some(1));
    assert_eq!(days(DAY), Some(1));
    assert_eq!(days(DAY + 22 * HOUR + 3_599), Some(1));
    assert_eq!(days(DAY + 23 * HOUR), Some(2));
    assert_eq!(days(7 * DAY), Some(7));
    assert_eq!(days(7 * DAY - HOUR), Some(7));
    assert_eq!(days(7 * DAY - HOUR - 1), Some(6));
    assert_eq!(days(-1), Some(0));
    assert_eq!(days(-23 * HOUR), Some(0));
    assert_eq!(days(-DAY + 1), Some(0));
    assert_eq!(days(-DAY), Some(-1));
    assert_eq!(days(-2 * DAY - 5), Some(-2));
}

#[test]
fn days_until_event_stands_at_the_ends_of_the_clock() {
    let far = Event { event_start: Some(i64::MAX), ..event(None) };
    assert_eq!(far.days_until_event(i64::MIN), Some(213_503_982_334_601));
    let gone = Event { event_start: Some(i64::MIN), ..event(None) };
    assert_eq!(gone.days_until_event(i64::MAX), Some(-213_503_982_334_601));
}

#[test]
fn minutes_until_event_counts_full_minutes_with_twenty_seconds_to_spare() {
    let minutes = |delta: i64| event(Some(NOW + delta)).minutes_until_event(NOW);
    assert_eq!(event(None).minutes_until_event(NOW), None);
    assert_eq!(minutes(0), Some(0));
    assert_eq!(minutes(39), Some(0));
    assert_eq!(minutes(40), Some(1));
    assert_eq!(minutes(60), Some(1));
    assert_eq!(minutes(99), Some(1));
    assert_eq!(minutes(100), Some(2));
    assert_eq!(minutes(7 * 60), Some(7));
    assert_eq!(minutes(-59), Some(0));
    assert_eq!(minutes(-60), Some(-1));
    assert_eq!(minutes(-125), Some(-2));
}

#[test]
fn next_drip_date_is_a_week_a_day_and_three_hours_before_the_start() {
    let next = |delta: i64| event(Some(NOW + delta)).next_drip_date(Environment::Production, NOW);
    let start = |delta: i64| NOW + delta;
    assert_eq!(event(None).next_drip_date(Environment::Production, NOW), None);
    assert_eq!(next(30 * DAY), Some(start(30 * DAY) - 7 * DAY));
    assert_eq!(next(8 * DAY - HOUR), Some(start(8 * DAY - HOUR) - 7 * DAY));
    assert_eq!(next(8 * DAY - HOUR - 1), Some(start(8 * DAY - HOUR - 1) - DAY));
    assert_eq!(next(7 * DAY), Some(start(7 * DAY) - DAY));
    assert_eq!(next(2 * DAY), Some(start(2 * DAY) - DAY));
    assert_eq!(next(2 * DAY - HOUR), Some(start(2 * DAY - HOUR) - DAY));
    assert_eq!(next(2 * DAY - HOUR - 1), Some(start(2 * DAY - HOUR - 1) - 3 * HOUR));
    assert_eq!(next(DAY), Some(start(DAY) - 3 * HOUR));
    assert_eq!(next(23 * HOUR), Some(start(23 * HOUR) - 3 * HOUR));
    assert_eq!(next(23 * HOUR - 1), None);
    assert_eq!(next(0), None);
    assert_eq!(next(-1), None);
    assert_eq!(next(-10 * DAY), None);
    assert_eq!(
        event(Some(NOW + 30 * DAY)).next_drip_date(Environment::Test, NOW),
        Some(NOW + 23 * DAY)
    );
}

#[test]
fn next_drip_date_counts_minutes_in_staging() {
    let next = |delta: i64| event(Some(NOW + delta)).next_drip_date(Environment::Staging, NOW);
    assert_eq!(next(30 * 60), Some(NOW + 30 * 60 - 7 * 60));
    assert_eq!(next(7 * 60 + 40), Some(NOW + 7 * 60 + 40 - 7 * 60));
    assert_eq!(next(7 * 60 + 39), Some(NOW + 7 * 60 + 39 - 60));
    assert_eq!(next(100), Some(NOW + 100 - 60));
    assert_eq!(next(99), Some(NOW + 99));
    assert_eq!(next(40), Some(NOW + 40));
    assert_eq!(next(39), None);
    assert_eq!(next(-5), None);
}

#[test]
fn is_published_once_the_publish_date_is_past() {
    let mut e = event(None);
    assert!(!e.is_published(NOW));
    e.publish_date = Some(NOW - 1);
    assert!(e.is_published(NOW));
    e.publish_date = Some(NOW);
    assert!(!e.is_published(NOW));
    e.publish_date = Some(NOW + 1);
    assert!(!e.is_published(NOW));
}

#[test]
fn search_span_is_cut_at_now_and_at_the_ends_of_time() {
    let span = |s, e, p| Event::dates_by_past_or_upcoming(s, e, p, NOW);
    assert_eq!(span(None, None, PastOrUpcoming::Upcoming), (NOW, END_OF_TIME));
    assert_eq!(span(None, None, PastOrUpcoming::Past), (BEGINNING_OF_TIME, NOW));
    assert_eq!(
        span(Some(NOW - 5), Some(NOW + 9), PastOrUpcoming::Upcoming),
        (NOW, NOW + 9)
    );
    assert_eq!(
        span(Some(NOW + 5), Some(END_OF_TIME + 1), PastOrUpcoming::Upcoming),
        (NOW + 5, END_OF_TIME)
    );
    assert_eq!(
        span(Some(NOW - 5), Some(NOW + 9), PastOrUpcoming::Past),
        (NOW - 5, NOW)
    );
    assert_eq!(
        span(Some(BEGINNING_OF_TIME - 1), Some(NOW - 9), PastOrUpcoming::Past),
        (BEGINNING_OF_TIME, NOW - 9)
    );
}

#[test]
fn regenerate_drip_actions_queues_an_action_for_the_event() {
    let mut store = ActionStore::new();
    let queued = event(Some(NOW + DAY)).regenerate_drip_actions(&mut store, NOW).unwrap();
    assert_eq!(queued.domain_action_type, DomainActionTypes::RegenerateDripActions);
    assert_eq!(queued.payload, ActionPayload::Empty);
    assert_eq!(queued.main_table, Some(Tables::Events));
    assert_eq!(queued.main_table_id, Some(42));
    assert_eq!(queued.status, DomainActionStatus::Pending);
    assert_eq!(queued.scheduled_at, NOW);
    assert_eq!(store.all(), vec![queued]);
}

#[test]
fn create_next_transfer_drip_action_schedules_the_next_notification() {
    let mut store = ActionStore::new();
    let e = event(Some(NOW + 3 * DAY));
    let queued = e
        .create_next_transfer_drip_action(Environment::Production, &mut store, NOW)
        .unwrap()
        .unwrap();
    assert_eq!(queued.domain_action_type, DomainActionTypes::ProcessTransferDrip);
    assert_eq!(
        queued.payload,
        ActionPayload::ProcessTransferDrip(ProcessTransferDripPayload {
            event_id: 42,
            source_or_destination: SourceOrDestination::Destination,
        })
    );
    assert_eq!(queued.main_table, Some(Tables::Events));
    assert_eq!(queued.main_table_id, Some(42));
    assert_eq!(queued.scheduled_at, NOW + 2 * DAY);
    assert_eq!(store.len(), 1);

    let past = event(Some(NOW - DAY));
    assert_eq!(
        past.create_next_transfer_drip_action(Environment::Production, &mut store, NOW),
        Ok(None)
    );
    assert_eq!(store.len(), 1);
}

#[test]
fn clear_pending_drip_actions_calls_off_the_drips_of_the_event_only() {
    let mut store = ActionStore::new();
    let e = event(Some(NOW + 30 * DAY));
    let drip = e
        .create_next_transfer_drip_action(Environment::Production, &mut store, NOW)
        .unwrap()
        .unwrap();
    let regenerate = e.regenerate_drip_actions(&mut store, NOW).unwrap();
    let other = Event { id: 43, ..event(Some(NOW + 30 * DAY)) };
    let other_drip = other
        .create_next_transfer_drip_action(Environment::Production, &mut store, NOW)
        .unwrap()
        .unwrap();
    let done = e
        .create_next_transfer_drip_action(Environment::Production, &mut store, NOW)
        .unwrap()
        .unwrap();
    store.mark_success(done.id, NOW + 1).unwrap();

    assert_eq!(e.clear_pending_drip_actions(&mut store, NOW + 5), 1);

    let cancelled = store.find(drip.id).unwrap();
    assert_eq!(cancelled.status, DomainActionStatus::Cancelled);
    assert_eq!(cancelled.updated_at, NOW + 5);
    assert_eq!(store.find(regenerate.id).unwrap().status, DomainActionStatus::Pending);
    assert_eq!(store.find(other_drip.id).unwrap().status, DomainActionStatus::Pending);
    assert_eq!(store.find(done.id).unwrap().status, DomainActionStatus::Success);
    assert_eq!(e.clear_pending_drip_actions(&mut store, NOW + 6), 0);
    assert!(store
        .find_by_resource(
            Tables::Events,
            42,
            DomainActionTypes::ProcessTransferDrip,
            DomainActionStatus::Pending
        )
        .is_empty());
}

#[test]
fn regenerate_after_update_only_when_a_published_event_has_moved() {
    let mut store = ActionStore::new();
    let draft = event(Some(NOW + DAY));
    let moved = Event { event_start: Some(NOW + 2 * DAY), ..event(None) };
    assert_eq!(draft.regenerate_after_update(&moved, &mut store, NOW), Ok(None));

    let published = Event { status: EventStatus::Published, ..event(Some(NOW + DAY)) };
    let same = Event { name: "Renamed".to_string(), ..event(Some(NOW + DAY)) };
    assert_eq!(published.regenerate_after_update(&same, &mut store, NOW), Ok(None));
    assert_eq!(store.len(), 0);

    let queued = published.regenerate_after_update(&moved, &mut store, NOW).unwrap().unwrap();
    assert_eq!(queued.domain_action_type, DomainActionTypes::RegenerateDripActions);
    assert_eq!(queued.main_table_id, Some(42));
    let cleared = Event { event_start: None, ..event(None) };
    assert!(published.regenerate_after_update(&cleared, &mut store, NOW).unwrap().is_some());
    assert_eq!(store.len(), 2);
}

#[test]
fn publish_queues_the_drips_and_logs_the_publication() {
    let mut database = Database::from_config(&config());
    let e = event(Some(NOW + 10 * DAY));

    let published = e.publish(Some(5), &mut database, NOW).unwrap();

    assert_eq!(published.status, EventStatus::Published);
    assert_eq!(published.publish_date, Some(NOW));
    assert_eq!(published.updated_at, NOW);
    assert_eq!(published.name, "Gala");
    let actions = database.actions.all();
    assert_eq!(actions.len(), 1);
    assert_eq!(actions[0].domain_action_type, DomainActionTypes::RegenerateDripActions);
    assert_eq!(actions[0].main_table_id, Some(42));
    let log = database.domain_events.all();
    assert_eq!(log.len(), 1);
    assert_eq!(log[0].event_type, DomainEventTypes::EventPublished);
    assert_eq!(log[0].display_text, "Event Gala published");
    assert_eq!(log[0].main_table, Tables::Events);
    assert_eq!(log[0].main_table_id, Some(42));
    assert_eq!(log[0].user_id, Some(5));
    assert_eq!(log[0].created_at, NOW);

    let again = published.publish(None, &mut database, NOW + 9).unwrap();
    assert_eq!(again, published);
    assert_eq!(database.actions.len(), 1);
    assert_eq!(database.domain_events.len(), 1);
}

#[test]
fn publish_keeps_a_publish_date_that_is_set() {
    let mut database = Database::from_config(&config());
    let e = Event { publish_date: Some(NOW + 500), ..event(Some(NOW + DAY)) };
    let published = e.publish(None, &mut database, NOW).unwrap();
    assert_eq!(published.publish_date, Some(NOW + 500));
}

#[test]
fn publish_refuses_an_event_without_venue_or_image() {
    let mut database = Database::from_config(&config());
    let bare = Event { venue_id: None, promo_image_url: None, ..event(Some(NOW + DAY)) };
    assert_eq!(
        bare.publish(None, &mut database, NOW),
        Err(EventError::Validation(vec![
            EventIssue::VenueRequired,
            EventIssue::PromoImageRequired
        ]))
    );
    let no_venue = Event { venue_id: None, ..event(Some(NOW + DAY)) };
    assert_eq!(
        no_venue.publish(None, &mut database, NOW),
        Err(EventError::Validation(vec![EventIssue::VenueRequired]))
    );
    let no_image = Event { promo_image_url: None, ..event(Some(NOW + DAY)) };
    assert_eq!(
        no_image.publish(None, &mut database, NOW),
        Err(EventError::Validation(vec![EventIssue::PromoImageRequired]))
    );
    assert_eq!(database.actions.len(), 0);
    assert_eq!(database.domain_events.len(), 0);
}

#[test]
fn unpublish_calls_off_the_drips_and_logs_the_change() {
    let mut database = Database::from_config(&config());
    let published = event(Some(NOW + 30 * DAY)).publish(None, &mut database, NOW).unwrap();
    let drip = published
        .create_next_transfer_drip_action(Environment::Production, &mut database.actions, NOW)
        .unwrap()
        .unwrap();

    let draft = published.unpublish(Some(6), &mut database, NOW + 10).unwrap();

    assert_eq!(draft.status, EventStatus::Draft);
    assert_eq!(draft.publish_date, None);
    assert_eq!(draft.updated_at, NOW + 10);
    assert_eq!(database.actions.find(drip.id).unwrap().status, DomainActionStatus::Cancelled);
    let log = database.domain_events.all();
    assert_eq!(log.len(), 2);
    assert_eq!(log[1].event_type, DomainEventTypes::EventUnpublished);
    assert_eq!(log[1].display_text, "Event was unpublished");
    assert_eq!(log[1].user_id, Some(6));

    assert_eq!(
        draft.unpublish(None, &mut database, NOW + 20),
        Err(EventError::Validation(vec![EventIssue::EventMustBePublished]))
    );
    assert_eq!(database.domain_events.len(), 2);
}

#[test]
fn drip_action_is_found_and_called_off_like_any_other() {
    let mut store = ActionStore::new();
    let request = DomainAction::create(
        DomainActionTypes::ProcessTransferDrip,
        ActionPayload::ProcessTransferDrip(ProcessTransferDripPayload {
            event_id: 42,
            source_or_destination: SourceOrDestination::Source,
        }),
        Some(Tables::Transfers),
        Some(77),
    );
    let queued = request.commit(&mut store, NOW).unwrap();
    let found = store.find_by_resource(
        Tables::Transfers,
        77,
        DomainActionTypes::ProcessTransferDrip,
        DomainActionStatus::Pending,
    );
    assert_eq!(found, vec![queued]);
    for action in &found {
        assert_eq!(action.main_table_id, Some(77));
        assert_eq!(action.main_table, Some(Tables::Transfers));
        assert_eq!((NOW - action.scheduled_at) / DAY, 0);
    }
}

fn no_change() -> EventEditableAttributes {
    EventEditableAttributes {
        name: None,
        venue_id: None,
        event_start: None,
        door_time: None,
        event_end: None,
        publish_date: None,
        promo_image_url: None,
        cancelled_at: None,
    }
}

#[test]
fn new_event_gets_its_end_and_door_time_from_its_start() {
    let mut database = Database::from_config(&config());
    let new = Event::create(
        "Gala".to_string(),
        NewEvent::default_status(),
        7,
        Some(9),
        Some(NOW),
        None,
        None,
        None,
    );
    assert_eq!(new.status, EventStatus::Draft);
    assert_eq!(new.promo_image_url, None);

    let stored = new.commit(Some(5), &mut database, NOW - 100).unwrap();

    assert!(has_random_format(stored.id));
    assert_eq!(stored.name, "Gala");
    assert_eq!(stored.organization_id, 7);
    assert_eq!(stored.venue_id, Some(9));
    assert_eq!(stored.event_start, Some(NOW));
    assert_eq!(stored.event_end, Some(NOW + DAY));
    assert_eq!(stored.door_time, Some(NOW - HOUR));
    assert_eq!(stored.status, EventStatus::Draft);
    assert_eq!(stored.cancelled_at, None);
    assert_eq!(stored.updated_at, NOW - 100);
    let log = database.domain_events.all();
    assert_eq!(log.len(), 1);
    assert_eq!(log[0].event_type, DomainEventTypes::EventCreated);
    assert_eq!(log[0].display_text, "Event 'Gala' created");
    assert_eq!(log[0].main_table_id, Some(stored.id));
    assert_eq!(log[0].user_id, Some(5));
    assert_eq!(database.actions.len(), 0);
}

#[test]
fn new_event_keeps_the_times_it_is_given() {
    let mut database = Database::from_config(&config());
    let new = Event::create(
        "Gala".to_string(),
        EventStatus::Draft,
        7,
        None,
        Some(NOW),
        Some(NOW - 60),
        Some(NOW - 900),
        Some(NOW),
    );
    let stored = new.commit_as(12, None, &mut database, NOW).unwrap();
    assert_eq!(stored.id, 12);
    assert_eq!(stored.event_end, Some(NOW));
    assert_eq!(stored.door_time, Some(NOW - 60));
    assert_eq!(stored.publish_date, Some(NOW - 900));

    let open_ended = Event::create("Open".to_string(), EventStatus::Draft, 7, None, None, None, None, None);
    let stored = open_ended.commit_as(13, None, &mut database, NOW).unwrap();
    assert_eq!(stored.event_start, None);
    assert_eq!(stored.event_end, None);
    assert_eq!(stored.door_time, None);
}

#[test]
fn new_event_may_not_end_before_it_starts() {
    let mut database = Database::from_config(&config());
    let new = Event::create(
        "Gala".to_string(),
        EventStatus::Draft,
        7,
        None,
        Some(NOW),
        None,
        None,
        Some(NOW - 1),
    );
    assert_eq!(
        new.commit(None, &mut database, NOW),
        Err(EventError::Validation(vec![EventIssue::EventEndBeforeEventStart]))
    );
    assert_eq!(database.domain_events.len(), 0);
}

#[test]
fn event_update_changes_what_is_given_and_keeps_the_rest() {
    let mut store = ActionStore::new();
    let e = event(Some(NOW + DAY));
    let changed = e
        .update(
            None,
            EventEditableAttributes {
                name: Some("Ball".to_string()),
                venue_id: Some(10),
                door_time: Some(NOW),
                promo_image_url: Some(None),
                publish_date: Some(Some(NOW + 5)),
                cancelled_at: Some(NOW + 6),
                ..no_change()
            },
            &mut store,
            NOW,
        )
        .unwrap();
    assert_eq!(changed.id, 42);
    assert_eq!(changed.name, "Ball");
    assert_eq!(changed.venue_id, Some(10));
    assert_eq!(changed.door_time, Some(NOW));
    assert_eq!(changed.promo_image_url, None);
    assert_eq!(changed.publish_date, Some(NOW + 5));
    assert_eq!(changed.cancelled_at, Some(NOW + 6));
    assert_eq!(changed.event_start, Some(NOW + DAY));
    assert_eq!(changed.event_end, Some(NOW + 2 * DAY));
    assert_eq!(changed.status, EventStatus::Draft);
    assert_eq!(changed.updated_at, NOW);
    assert_eq!(store.len(), 0);

    let same = e.update(None, no_change(), &mut store, NOW + 1).unwrap();
    assert_eq!(same, Event { updated_at: NOW + 1, ..event(Some(NOW + DAY)) });
}

#[test]
fn update_of_a_published_event_that_moves_its_start_queues_the_drips() {
    let mut store = ActionStore::new();
    let published = Event { status: EventStatus::Published, ..event(Some(NOW + DAY)) };
    let moved = published
        .update(
            None,
            EventEditableAttributes {
                event_start: Some(NOW + 2 * DAY),
                event_end: Some(NOW + 3 * DAY),
                ..no_change()
            },
            &mut store,
            NOW,
        )
        .unwrap();
    assert_eq!(moved.event_start, Some(NOW + 2 * DAY));
    let actions = store.all();
    assert_eq!(actions.len(), 1);
    assert_eq!(actions[0].domain_action_type, DomainActionTypes::RegenerateDripActions);
    assert_eq!(actions[0].main_table_id, Some(42));

    let unmoved = published
        .update(None, EventEditableAttributes { event_start: Some(NOW + DAY), ..no_change() }, &mut store, NOW)
        .unwrap();
    assert_eq!(unmoved.event_start, Some(NOW + DAY));
    assert_eq!(store.len(), 1);
}

#[test]
fn update_gives_a_published_event_a_publish_date() {
    let mut store = ActionStore::new();
    let published = Event {
        status: EventStatus::Published,
        publish_date: Some(NOW - 50),
        ..event(Some(NOW + DAY))
    };
    let cleared = published
        .update(None, EventEditableAttributes { publish_date: Some(None), ..no_change() }, &mut store, NOW)
        .unwrap();
    assert_eq!(cleared.publish_date, Some(NOW));
    let kept = published.update(None, no_change(), &mut store, NOW).unwrap();
    assert_eq!(kept.publish_date, Some(NOW - 50));

    let draft = Event { publish_date: Some(NOW - 50), ..event(Some(NOW + DAY)) };
    let cleared = draft
        .update(None, EventEditableAttributes { publish_date: Some(None), ..no_change() }, &mut store, NOW)
        .unwrap();
    assert_eq!(cleared.publish_date, None);
}

#[test]
fn update_may_not_leave_an_event_ending_before_it_starts() {
    let mut store = ActionStore::new();
    let e = Event { status: EventStatus::Published, ..event(Some(NOW + DAY)) };
    let refused = e.update(
        None,
        EventEditableAttributes { event_start: Some(NOW + 2 * DAY + 1), ..no_change() },
        &mut store,
        NOW,
    );
    assert_eq!(
        refused,
        Err(EventError::Validation(vec![EventIssue::EventEndBeforeEventStart]))
    );
    assert_eq!(store.len(), 0);
    let at_once = e.update(
        None,
        EventEditableAttributes { event_start: Some(NOW + 2 * DAY), ..no_change() },
        &mut store,
        NOW,
    );
    assert!(at_once.is_ok());
}

#[test]
fn cancel_marks_the_event_and_logs_the_cancellation() {
    let mut database = Database::from_config(&config());
    let cancelled = event(Some(NOW + DAY)).cancel(Some(8), &mut database, NOW).unwrap();
    assert_eq!(cancelled, Event { cancelled_at: Some(NOW), ..event(Some(NOW + DAY)) });
    let log = database.domain_events.all();
    assert_eq!(log.len(), 1);
    assert_eq!(log[0].event_type, DomainEventTypes::EventCancelled);
    assert_eq!(log[0].display_text, "Event 'Gala' cancelled");
    assert_eq!(log[0].main_table_id, Some(42));
    assert_eq!(log[0].user_id, Some(8));
    assert_eq!(log[0].created_at, NOW);
}
