use domain_actions::action_store::{ActionStore, Query};
use domain_actions::domain_actions::{
    ActionPayload, BroadcastPushNotificationAction, DomainAction, DomainActionStatus,
    DomainActionTypes, NewDomainAction, ProcessTransferDripPayload, SourceOrDestination, Tables,
    UpdateGenresPayload,
};
use domain_actions::errors::{DatabaseError, ErrorCode, ErrorKind};
use domain_actions::ids::has_random_format;

fn drip(event: u128) -> NewDomainAction {
    DomainAction::create(
        DomainActionTypes::ProcessTransferDrip,
        ActionPayload::ProcessTransferDrip(ProcessTransferDripPayload {
            event_id: event,
            source_or_destination: SourceOrDestination::Destination,
        }),
        Some(Tables::Events),
        Some(event),
    )
}

fn email(text: &str) -> NewDomainAction {
    DomainAction::create(
        DomainActionTypes::SendEmail,
        ActionPayload::Text(text.to_string()),
        None,
        None,
    )
}

fn ids(actions: &[DomainAction]) -> Vec<u128> {
    actions.iter().map(|a| a.id).collect()
}

#[test]
fn create_describes_a_pending_action() {
    let mut new = DomainAction::create(
        DomainActionTypes::RegenerateDripActions,
        ActionPayload::Empty,
        Some(Tables::Events),
        Some(7),
    );
    assert_eq!(new.domain_action_type, DomainActionTypes::RegenerateDripActions);
    assert_eq!(new.main_table, Some(Tables::Events));
    assert_eq!(new.main_table_id, Some(7));
    assert_eq!(new.scheduled_at, None);
    new.schedule_at(40);
    assert_eq!(new.scheduled_at, Some(40));
}

#[test]
fn payload_must_fit_the_action_type() {
    let text = ActionPayload::Text("{}".to_string());
    let broadcast = ActionPayload::BroadcastPushNotification(BroadcastPushNotificationAction {
        event_id: 3,
    });
    let genres = ActionPayload::UpdateGenres(UpdateGenresPayload { user_id: None });
    assert!(text.fits(DomainActionTypes::SendEmail));
    assert!(text.fits(DomainActionTypes::RedeemOnChain));
    assert!(!text.fits(DomainActionTypes::RegenerateDripActions));
    assert!(ActionPayload::Empty.fits(DomainActionTypes::RegenerateDripActions));
    assert!(!ActionPayload::Empty.fits(DomainActionTypes::SendEmail));
    assert!(broadcast.fits(DomainActionTypes::BroadcastPushNotification));
    assert!(!broadcast.fits(DomainActionTypes::ProcessTransferDrip));
    assert!(genres.fits(DomainActionTypes::UpdateGenres));
    assert!(!genres.fits(DomainActionTypes::BroadcastPushNotification));
}

#[test]
fn insert_stores_a_pending_action_due_at_once() {
    let mut store = ActionStore::new();
    let stored = store.insert(email("hello"), 11, 100).unwrap();
    assert_eq!(stored.id, 11);
    assert_eq!(stored.status, DomainActionStatus::Pending);
    assert_eq!(stored.scheduled_at, 100);
    assert_eq!(stored.busy_until, None);
    assert_eq!(stored.last_error, None);
    assert_eq!(stored.created_at, 100);
    assert_eq!(stored.updated_at, 100);
    assert_eq!(stored.payload, ActionPayload::Text("hello".to_string()));
    assert_eq!(store.len(), 1);
    assert_eq!(store.find(11).unwrap(), stored);
}

#[test]
fn insert_keeps_the_schedule_that_was_asked_for() {
    let mut store = ActionStore::new();
    let mut new = drip(5);
    new.schedule_at(3_700);
    let stored = store.insert(new, 1, 100).unwrap();
    assert_eq!(stored.scheduled_at, 3_700);
    assert_eq!(stored.created_at, 100);
}

#[test]
fn insert_refuses_a_payload_that_does_not_fit() {
    let mut store = ActionStore::new();
    let new = DomainAction::create(
        DomainActionTypes::BroadcastPushNotification,
        ActionPayload::Empty,
        None,
        None,
    );
    let refused = store.insert(new, 1, 100).unwrap_err();
    assert_eq!(refused.error_code, ErrorCode::ValidationError);
    assert_eq!(refused.kind(), ErrorKind::BusinessRule);
    assert_eq!(store.len(), 0);
}

#[test]
fn insert_refuses_an_id_that_is_taken() {
    let mut store = ActionStore::new();
    store.insert(email("a"), 1, 100).unwrap();
    let refused = store.insert(email("b"), 1, 101).unwrap_err();
    assert_eq!(refused.error_code, ErrorCode::DuplicateKeyError);
    assert_eq!(refused.kind(), ErrorKind::Storage);
    assert_eq!(store.len(), 1);
    assert_eq!(store.find(1).unwrap().payload, ActionPayload::Text("a".to_string()));
}

#[test]
fn commit_draws_a_fresh_random_id() {
    let mut store = ActionStore::new();
    let first = email("a").commit(&mut store, 100).unwrap();
    let second = email("b").commit(&mut store, 100).unwrap();
    assert_ne!(first.id, second.id);
    assert!(has_random_format(first.id));
    assert!(has_random_format(second.id));
    assert_eq!((first.id >> 76) & 0xf, 4);
    assert_eq!((first.id >> 62) & 0x3, 2);
    assert_eq!(store.len(), 2);
    assert_eq!(store.find(first.id).unwrap(), first);
    assert_eq!(store.find(second.id).unwrap(), second);
}

#[test]
fn random_format_is_read_from_the_version_and_variant_bits() {
    assert!(has_random_format(0x0000_0000_0000_4000_8000_0000_0000_0000));
    assert!(has_random_format(0xffff_ffff_ffff_4fff_bfff_ffff_ffff_ffff));
    assert!(!has_random_format(0));
    assert!(!has_random_format(0x0000_0000_0000_1000_8000_0000_0000_0000));
    assert!(!has_random_format(0x0000_0000_0000_4000_c000_0000_0000_0000));
}

#[test]
fn commit_refuses_a_payload_that_does_not_fit() {
    let mut store = ActionStore::new();
    let new = DomainAction::create(
        DomainActionTypes::UpdateGenres,
        ActionPayload::Text("x".to_string()),
        None,
        None,
    );
    assert_eq!(
        new.commit(&mut store, 5).unwrap_err(),
        DatabaseError { error_code: ErrorCode::ValidationError }
    );
    assert_eq!(store.len(), 0);
}

#[test]
fn find_reports_a_missing_action() {
    let store = ActionStore::new();
    let missing = store.find(9).unwrap_err();
    assert_eq!(missing.error_code, ErrorCode::NoResults);
    assert_eq!(missing.kind(), ErrorKind::Storage);
}

#[test]
fn find_pending_returns_due_actions_oldest_first() {
    let mut store = ActionStore::new();
    let mut late = email("late");
    late.schedule_at(300);
    let mut early = email("early");
    early.schedule_at(100);
    let mut middle = email("middle");
    middle.schedule_at(200);
    let mut future = email("future");
    future.schedule_at(1_000);
    store.insert(late, 1, 50).unwrap();
    store.insert(early, 2, 50).unwrap();
    store.insert(middle, 3, 50).unwrap();
    store.insert(future, 4, 50).unwrap();

    assert_eq!(ids(&store.find_pending(None, 99)), Vec::<u128>::new());
    assert_eq!(ids(&store.find_pending(None, 100)), vec![2]);
    assert_eq!(ids(&store.find_pending(None, 250)), vec![2, 3]);
    assert_eq!(ids(&store.find_pending(None, 300)), vec![2, 3, 1]);
    assert_eq!(ids(&store.find_pending(None, 999)), vec![2, 3, 1]);
    assert_eq!(ids(&store.find_pending(None, 1_000)), vec![2, 3, 1, 4]);
    let found = store.find_pending(None, 1_000);
    for pair in found.windows(2) {
        assert!(pair[0].scheduled_at <= pair[1].scheduled_at);
    }
}

#[test]
fn find_pending_keeps_the_order_of_arrival_among_equals() {
    let mut store = ActionStore::new();
    store.insert(email("a"), 9, 100).unwrap();
    store.insert(email("b"), 3, 100).unwrap();
    store.insert(email("c"), 5, 100).unwrap();
    assert_eq!(ids(&store.find_pending(None, 100)), vec![9, 3, 5]);
}

#[test]
fn find_pending_honours_the_limit() {
    let mut store = ActionStore::new();
    for id in 1..=5u128 {
        let mut new = email("x");
        new.schedule_at(id as i64);
        store.insert(new, id, 0).unwrap();
    }
    assert_eq!(ids(&store.find_pending(Some(0), 10)), Vec::<u128>::new());
    assert_eq!(ids(&store.find_pending(Some(2), 10)), vec![1, 2]);
    assert_eq!(ids(&store.find_pending(Some(5), 10)), vec![1, 2, 3, 4, 5]);
    assert_eq!(ids(&store.find_pending(Some(9), 10)), vec![1, 2, 3, 4, 5]);
    assert_eq!(ids(&store.find_pending(Some(9), 3)), vec![1, 2, 3]);
}

#[test]
fn find_pending_leaves_out_what_is_not_pending() {
    let mut store = ActionStore::new();
    for id in 1..=5u128 {
        store.insert(email("x"), id, 0).unwrap();
    }
    store.lease(1, 60, 0).unwrap();
    store.mark_success(2, 0).unwrap();
    store.mark_errored(3, "boom".to_string(), 0).unwrap();
    store.mark_cancelled(4, 0).unwrap();
    assert_eq!(ids(&store.find_pending(None, 1_000)), vec![5]);
}

#[test]
fn find_due_includes_actions_whose_lease_has_run_out() {
    let mut store = ActionStore::new();
    store.insert(email("a"), 1, 0).unwrap();
    store.insert(email("b"), 2, 0).unwrap();
    store.lease(1, 10, 0).unwrap();
    assert_eq!(ids(&store.find_due(None, 9)), vec![2]);
    assert_eq!(ids(&store.find_due(None, 10)), vec![1, 2]);
    assert_eq!(ids(&store.find_pending(None, 10)), vec![2]);
    store.mark_success(1, 11).unwrap();
    assert_eq!(ids(&store.find_due(None, 100)), vec![2]);
}

#[test]
fn select_answers_each_query() {
    let mut store = ActionStore::new();
    store.insert(drip(7), 1, 0).unwrap();
    store.insert(email("b"), 2, 0).unwrap();
    store.lease(2, 10, 0).unwrap();
    assert_eq!(ids(&store.select(Query::DuePending { now: 5 }, None)), vec![1]);
    assert_eq!(ids(&store.select(Query::DueUnleased { now: 5 }, None)), vec![1]);
    assert_eq!(ids(&store.select(Query::DueUnleased { now: 10 }, None)), vec![1, 2]);
    assert_eq!(ids(&store.select(Query::DueUnleased { now: 10 }, Some(1))), vec![1]);
    let by_row = Query::Resource {
        main_table: Tables::Events,
        main_table_id: 7,
        action_type: DomainActionTypes::ProcessTransferDrip,
        status: DomainActionStatus::Pending,
    };
    assert_eq!(ids(&store.select(by_row, None)), vec![1]);
    assert!(by_row.admits(&store.find(1).unwrap()));
    assert!(!by_row.admits(&store.find(2).unwrap()));
    assert_eq!(ids(&store.all()), vec![1, 2]);
}

#[test]
fn find_by_resource_matches_table_row_type_and_status() {
    let mut store = ActionStore::new();
    store.insert(drip(7), 1, 0).unwrap();
    store.insert(drip(8), 2, 0).unwrap();
    store.insert(drip(7), 3, 0).unwrap();
    store
        .insert(
            DomainAction::create(
                DomainActionTypes::RegenerateDripActions,
                ActionPayload::Empty,
                Some(Tables::Events),
                Some(7),
            ),
            4,
            0,
        )
        .unwrap();
    store
        .insert(
            DomainAction::create(
                DomainActionTypes::ProcessTransferDrip,
                ActionPayload::ProcessTransferDrip(ProcessTransferDripPayload {
                    event_id: 7,
                    source_or_destination: SourceOrDestination::Source,
                }),
                Some(Tables::Transfers),
                Some(7),
            ),
            5,
            0,
        )
        .unwrap();
    store.mark_cancelled(3, 1).unwrap();

    let pending = store.find_by_resource(
        Tables::Events,
        7,
        DomainActionTypes::ProcessTransferDrip,
        DomainActionStatus::Pending,
    );
    assert_eq!(ids(&pending), vec![1]);
    let cancelled = store.find_by_resource(
        Tables::Events,
        7,
        DomainActionTypes::ProcessTransferDrip,
        DomainActionStatus::Cancelled,
    );
    assert_eq!(ids(&cancelled), vec![3]);
    let transfers = store.find_by_resource(
        Tables::Transfers,
        7,
        DomainActionTypes::ProcessTransferDrip,
        DomainActionStatus::Pending,
    );
    assert_eq!(ids(&transfers), vec![5]);
    let none = store.find_by_resource(
        Tables::Orders,
        7,
        DomainActionTypes::ProcessTransferDrip,
        DomainActionStatus::Pending,
    );
    assert!(none.is_empty());
}

#[test]
fn set_cancelled_calls_off_each_action_found() {
    let mut store = ActionStore::new();
    store.insert(drip(7), 1, 0).unwrap();
    store.insert(drip(7), 2, 0).unwrap();
    store.insert(drip(8), 3, 0).unwrap();
    let found = store.find_by_resource(
        Tables::Events,
        7,
        DomainActionTypes::ProcessTransferDrip,
        DomainActionStatus::Pending,
    );
    for action in &found {
        action.set_cancelled(&mut store, 9).unwrap();
    }
    assert_eq!(store.find(1).unwrap().status, DomainActionStatus::Cancelled);
    assert_eq!(store.find(2).unwrap().status, DomainActionStatus::Cancelled);
    assert_eq!(store.find(2).unwrap().updated_at, 9);
    assert_eq!(store.find(3).unwrap().status, DomainActionStatus::Pending);
}

#[test]
fn lease_makes_the_action_busy_until_now_plus_duration() {
    let mut store = ActionStore::new();
    store.insert(email("a"), 1, 100).unwrap();
    store.lease(1, 60, 130).unwrap();
    let leased = store.find(1).unwrap();
    assert_eq!(leased.status, DomainActionStatus::Busy);
    assert_eq!(leased.busy_until, Some(190));
    assert_eq!(leased.updated_at, 130);
    assert_eq!(leased.created_at, 100);
    assert_eq!(leased.scheduled_at, 100);
    assert!(leased.is_leased(130));
    assert!(leased.is_leased(189));
    assert!(!leased.is_leased(190));
    assert!(!leased.can_be_leased(189));
    assert!(leased.can_be_leased(190));
}

#[test]
fn second_lease_loses_the_race() {
    let mut store = ActionStore::new();
    store.insert(email("a"), 1, 100).unwrap();
    let first = store.lease(1, 60, 100);
    let second = store.lease(1, 60, 100);
    assert_eq!(first, Ok(()));
    assert_eq!(second, Err(DatabaseError { error_code: ErrorCode::ConcurrencyError }));
    assert_eq!(second.unwrap_err().kind(), ErrorKind::Concurrency);
    assert_eq!(store.find(1).unwrap().busy_until, Some(160));
    assert_eq!(
        store.lease(1, 60, 159),
        Err(DatabaseError { error_code: ErrorCode::ConcurrencyError })
    );
}

#[test]
fn lease_can_be_taken_again_once_it_has_run_out() {
    let mut store = ActionStore::new();
    store.insert(email("a"), 1, 100).unwrap();
    store.lease(1, 60, 100).unwrap();
    assert!(store.lease(1, 60, 159).is_err());
    assert_eq!(store.find(1).unwrap().status, DomainActionStatus::Busy);
    assert_eq!(store.lease(1, 30, 160), Ok(()));
    let again = store.find(1).unwrap();
    assert_eq!(again.status, DomainActionStatus::Busy);
    assert_eq!(again.busy_until, Some(190));
}

#[test]
fn lease_of_no_length_holds_nothing() {
    let mut store = ActionStore::new();
    store.insert(email("a"), 1, 100).unwrap();
    assert_eq!(store.lease(1, 0, 100), Ok(()));
    assert_eq!(store.lease(1, 0, 100), Ok(()));
}

#[test]
fn lease_is_refused_on_settled_and_missing_actions() {
    let mut store = ActionStore::new();
    store.insert(email("a"), 1, 100).unwrap();
    store.insert(email("b"), 2, 100).unwrap();
    store.insert(email("c"), 3, 100).unwrap();
    store.mark_success(1, 101).unwrap();
    store.mark_errored(2, "no".to_string(), 101).unwrap();
    store.mark_cancelled(3, 101).unwrap();
    for id in 1..=3u128 {
        let refused = store.lease(id, 60, 1_000).unwrap_err();
        assert_eq!(refused.error_code, ErrorCode::BusinessProcessError);
        assert_eq!(refused.kind(), ErrorKind::BusinessRule);
    }
    assert_eq!(store.lease(4, 60, 1_000).unwrap_err().error_code, ErrorCode::NoResults);
}

#[test]
fn mark_errored_records_the_message() {
    let mut store = ActionStore::new();
    store.insert(email("a"), 1, 100).unwrap();
    store.lease(1, 60, 100).unwrap();
    store.mark_errored(1, "provider unreachable".to_string(), 120).unwrap();
    let failed = store.find(1).unwrap();
    assert_eq!(failed.status, DomainActionStatus::Errored);
    assert_eq!(failed.last_error, Some("provider unreachable".to_string()));
    assert_eq!(failed.updated_at, 120);
    assert_eq!(failed.busy_until, Some(160));
}

#[test]
fn settling_a_settled_action_is_a_no_op() {
    let mut store = ActionStore::new();
    store.insert(email("a"), 1, 100).unwrap();
    store.mark_success(1, 110).unwrap();
    let done = store.find(1).unwrap();
    assert_eq!(done.status, DomainActionStatus::Success);
    assert_eq!(done.updated_at, 110);

    assert_eq!(store.mark_success(1, 120), Ok(()));
    assert_eq!(store.find(1).unwrap(), done);
    assert_eq!(store.mark_cancelled(1, 130), Ok(()));
    assert_eq!(store.find(1).unwrap(), done);
    assert_eq!(store.mark_errored(1, "late".to_string(), 140), Ok(()));
    assert_eq!(store.find(1).unwrap(), done);

    store.insert(email("b"), 2, 100).unwrap();
    store.mark_cancelled(2, 110).unwrap();
    let off = store.find(2).unwrap();
    assert_eq!(off.status, DomainActionStatus::Cancelled);
    assert_eq!(store.mark_success(2, 120), Ok(()));
    assert_eq!(store.mark_cancelled(2, 120), Ok(()));
    assert_eq!(store.find(2).unwrap(), off);
}

#[test]
fn settling_a_missing_action_is_an_error() {
    let mut store = ActionStore::new();
    assert_eq!(store.mark_success(1, 0).unwrap_err().error_code, ErrorCode::NoResults);
    assert_eq!(store.mark_cancelled(1, 0).unwrap_err().error_code, ErrorCode::NoResults);
    assert_eq!(
        store.mark_errored(1, "x".to_string(), 0).unwrap_err().error_code,
        ErrorCode::NoResults
    );
}

#[test]
fn status_knows_whether_it_is_terminal() {
    assert!(!DomainActionStatus::Pending.is_terminal());
    assert!(!DomainActionStatus::Busy.is_terminal());
    assert!(DomainActionStatus::Success.is_terminal());
    assert!(DomainActionStatus::Errored.is_terminal());
    assert!(DomainActionStatus::Cancelled.is_terminal());
}

#[test]
fn every_error_code_has_a_kind_and_a_message() {
    let storage = [ErrorCode::NoResults, ErrorCode::DuplicateKeyError, ErrorCode::ConnectionError];
    for code in storage {
        assert_eq!(DatabaseError::new(code).kind(), ErrorKind::Storage);
    }
    assert_eq!(DatabaseError::validation_error().kind(), ErrorKind::BusinessRule);
    assert_eq!(DatabaseError::business_process_error().kind(), ErrorKind::BusinessRule);
    assert_eq!(DatabaseError::concurrency_error().kind(), ErrorKind::Concurrency);
    assert_eq!(DatabaseError::no_results().error_code, ErrorCode::NoResults);
    assert_eq!(
        DatabaseError::concurrency_error().message(),
        "Another process is busy with this action"
    );
    assert_eq!(DatabaseError::new(ErrorCode::ConnectionError).message(), "Connection pool exhausted");
    assert_eq!(DatabaseError::no_results().message(), "No results");
}

#[test]
fn cancel_matching_calls_off_what_answers_the_query_and_is_not_settled() {
    let mut store = ActionStore::new();
    for id in 1..=4u128 {
        let mut new = email("x");
        new.schedule_at(id as i64 * 10);
        store.insert(new, id, 0).unwrap();
    }
    store.lease(2, 5, 0).unwrap();
    store.mark_success(3, 1).unwrap();
    let done = store.find(3).unwrap();

    assert_eq!(store.cancel_matching(Query::DueUnleased { now: 30 }, 50), 2);

    assert_eq!(store.find(1).unwrap().status, DomainActionStatus::Cancelled);
    assert_eq!(store.find(1).unwrap().updated_at, 50);
    assert_eq!(store.find(2).unwrap().status, DomainActionStatus::Cancelled);
    assert_eq!(store.find(2).unwrap().busy_until, Some(5));
    assert_eq!(store.find(3).unwrap(), done);
    assert_eq!(store.find(4).unwrap().status, DomainActionStatus::Pending);
    assert_eq!(store.cancel_matching(Query::DueUnleased { now: 30 }, 60), 0);
    assert_eq!(ids(&store.all()), vec![1, 2, 3, 4]);
}

#[test]
fn cancel_matching_does_what_cancelling_each_found_action_does() {
    let build = || {
        let mut store = ActionStore::new();
        store.insert(drip(7), 1, 0).unwrap();
        store.insert(drip(8), 2, 0).unwrap();
        store.insert(drip(7), 3, 0).unwrap();
        store
    };
    let by_row = Query::Resource {
        main_table: Tables::Events,
        main_table_id: 7,
        action_type: DomainActionTypes::ProcessTransferDrip,
        status: DomainActionStatus::Pending,
    };
    let mut at_once = build();
    assert_eq!(at_once.cancel_matching(by_row, 9), 2);
    let mut one_by_one = build();
    for action in one_by_one.select(by_row, None) {
        action.set_cancelled(&mut one_by_one, 9).unwrap();
    }
    assert_eq!(at_once.all(), one_by_one.all());
}

#[test]
fn create_stores_an_action_whose_payload_fits() {
    let mut store = ActionStore::new();
    for n in 0..50 {
        let stored = store.create(email("x"), n).unwrap();
        assert!(has_random_format(stored.id));
        assert_eq!(store.find(stored.id).unwrap(), stored);
    }
    assert_eq!(store.len(), 50);
}
