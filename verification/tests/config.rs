use domain_actions::config::{Actix, Config, ConnectionPoolConfig};
use domain_actions::database::{ConnectionPool, Database};
use domain_actions::domain_actions::{DomainActionTypes, Tables};
use domain_actions::errors::{DatabaseError, ErrorCode};

fn config(max: u32) -> Config {
    Config {
        actix: Actix { workers: Some(3) },
        front_end_url: "https://front.test".to_string(),
        connection_pool: ConnectionPoolConfig { min: 1, max },
    }
}

#[test]
fn config_is_cloned_field_by_field() {
    let conf = config(8);
    let copy = conf.clone();
    assert_eq!(copy.actix.workers, Some(3));
    assert_eq!(copy.front_end_url, "https://front.test");
    assert_eq!(copy.connection_pool.min, 1);
    assert_eq!(copy.connection_pool.max, 8);
}

#[test]
fn pool_lends_no_more_connections_than_it_has() {
    let mut pool = ConnectionPool::new(&ConnectionPoolConfig { min: 0, max: 2 });
    assert_eq!(pool.max_size(), 2);
    assert_eq!(pool.connections_in_use(), 0);
    let first = pool.get().unwrap();
    let second = pool.get().unwrap();
    assert_eq!(pool.connections_in_use(), 2);
    let refused = pool.get().unwrap_err();
    assert_eq!(refused, DatabaseError { error_code: ErrorCode::ConnectionError });
    assert_eq!(pool.connections_in_use(), 2);
    pool.put_back(first);
    assert_eq!(pool.connections_in_use(), 1);
    let third = pool.get().unwrap();
    assert_eq!(pool.connections_in_use(), 2);
    pool.put_back(second);
    pool.put_back(third);
    assert_eq!(pool.connections_in_use(), 0);
}

#[test]
fn pool_without_connections_lends_none() {
    let mut pool = ConnectionPool::new(&ConnectionPoolConfig { min: 0, max: 0 });
    assert_eq!(pool.get().unwrap_err().error_code, ErrorCode::ConnectionError);
}

#[test]
fn connection_begins_a_transaction_when_asked() {
    let mut database = Database::from_config(&config(2));
    let mut connection = database.get_connection().unwrap();
    assert!(!connection.is_in_transaction());
    connection.begin_transaction();
    assert!(connection.is_in_transaction());
    assert_eq!(database.connection_pool.connections_in_use(), 1);
    database.release(connection);
    assert_eq!(database.connection_pool.connections_in_use(), 0);
}

#[test]
fn database_starts_empty() {
    let database = Database::from_config(&config(5));
    assert_eq!(database.actions.len(), 0);
    assert_eq!(database.domain_events.len(), 0);
    assert!(database.domain_events.find_with_unpublished_domain_events(10).is_empty());
    assert_eq!(database.connection_pool.max_size(), 5);
}

#[test]
fn action_types_are_read_back_from_their_names() {
    let types = [
        (DomainActionTypes::SendEmail, "SendEmail"),
        (DomainActionTypes::RedeemOnChain, "RedeemOnChain"),
        (DomainActionTypes::RegenerateDripActions, "RegenerateDripActions"),
        (DomainActionTypes::BroadcastPushNotification, "BroadcastPushNotification"),
        (DomainActionTypes::ProcessTransferDrip, "ProcessTransferDrip"),
        (DomainActionTypes::UpdateGenres, "UpdateGenres"),
    ];
    for (action_type, name) in types {
        assert_eq!(action_type.name(), name);
        assert_eq!(DomainActionTypes::parse(name), Ok(action_type));
    }
}

#[test]
fn unknown_action_type_is_a_validation_error() {
    for name in ["Foo", "", "sendemail", "SendEmail ", "SendEmails"] {
        assert_eq!(
            DomainActionTypes::parse(name),
            Err(DatabaseError { error_code: ErrorCode::ValidationError })
        );
    }
}

#[test]
fn tables_have_names() {
    assert_eq!(Tables::Broadcasts.name(), "Broadcasts");
    assert_eq!(Tables::Events.name(), "Events");
    assert_eq!(Tables::Orders.name(), "Orders");
    assert_eq!(Tables::Transfers.name(), "Transfers");
}
