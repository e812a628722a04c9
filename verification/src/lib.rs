//! A durable action queue with leases: actions are created by business logic,
//! leased by a dispatcher, routed to an executor by their type and settled
//! with the outcome of the execution.

pub mod config;
pub mod errors;
pub mod ids;
pub mod domain_actions;
pub mod action_store;
pub mod lease_rules;
pub mod domain_events;
pub mod database;
pub mod routing;
pub mod dispatch;
pub mod monitor;
pub mod publishing;
pub mod events;
pub mod broadcasts;
