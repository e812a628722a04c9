use vstd::prelude::*;
use crate::action_store::ActionStore;
use crate::config::{Config, ConnectionPoolConfig};
use crate::domain_actions::DomainActionView;
use crate::domain_events::{DomainEvent, DomainEventLog, PublisherView};
use crate::errors::{DatabaseError, ErrorCode};

verus! {

/// A connection to the store, lent by the pool until it is given back.
#[derive(Debug)]
pub struct Connection {
    in_transaction: bool,
}

impl Connection {
    /// Whether a transaction has been begun on the connection.
    pub closed spec fn in_transaction(&self) -> bool {
        self.in_transaction
    }

    /// Begins a transaction: what is done through the connection from now
    /// on belongs to it.
    pub fn begin_transaction(&mut self)
        ensures
            final(self).in_transaction(),
    {
        self.in_transaction = true;
    }

    /// Whether a transaction has been begun on the connection.
    pub fn is_in_transaction(&self) -> (yes: bool)
        ensures
            yes == self.in_transaction(),
    {
        self.in_transaction
    }
}

/// The pool of connections to the store: it lends no more connections at a
/// time than it was made for.
#[derive(Debug)]
pub struct ConnectionPool {
    max: u32,
    in_use: u32,
}

impl ConnectionPool {
    /// The largest number of connections that can be out at a time.
    pub closed spec fn capacity(&self) -> nat {
        self.max as nat
    }

    /// The number of connections that are out.
    pub closed spec fn in_use(&self) -> nat {
        self.in_use as nat
    }

    /// The invariant of the pool: no more connections are out than it has.
    pub open spec fn wf(&self) -> bool {
        self.in_use() <= self.capacity()
    }

    /// A pool of the size the configuration asks for, with all connections
    /// in.
    pub fn new(config: &ConnectionPoolConfig) -> (pool: ConnectionPool)
        ensures
            pool.wf(),
            pool.capacity() == config.max,
            pool.in_use() == 0,
    {
        ConnectionPool { max: config.max, in_use: 0 }
    }

    /// The largest number of connections that can be out at a time.
    pub fn max_size(&self) -> (max: u32)
        ensures
            max == self.capacity(),
    {
        self.max
    }

    /// The number of connections that are out.
    pub fn connections_in_use(&self) -> (n: u32)
        ensures
            n == self.in_use(),
    {
        self.in_use
    }

    /// Lends a connection. Refused with `ConnectionError` when all
    /// connections of the pool are out.
    pub fn get(&mut self) -> (outcome: Result<Connection, DatabaseError>)
        requires
            old(self).wf(),
        ensures
            final(self).wf(),
            final(self).capacity() == old(self).capacity(),
            match outcome {
                Ok(connection) => old(self).in_use() < old(self).capacity() && final(self).in_use()
                    == old(self).in_use() + 1 && !connection.in_transaction(),
                Err(e) => old(self).in_use() >= old(self).capacity() && final(self).in_use() == old(
                    self,
                ).in_use() && e.error_code == ErrorCode::ConnectionError,
            },
    {
        if self.in_use < self.max {
            self.in_use = self.in_use + 1;
            Ok(Connection { in_transaction: false })
        } else {
            Err(DatabaseError::new(ErrorCode::ConnectionError))
        }
    }

    /// Takes a connection back.
    pub fn put_back(&mut self, connection: Connection)
        requires
            old(self).wf(),
        ensures
            final(self).wf(),
            final(self).capacity() == old(self).capacity(),
            final(self).in_use() == if old(self).in_use() > 0 {
                old(self).in_use() - 1
            } else {
                0
            },
    {
        if self.in_use > 0 {
            self.in_use = self.in_use - 1;
        }
    }
}

/// The store and the pool of connections to it.
pub struct Database {
    /// The record of all actions.
    pub actions: ActionStore,
    /// The log of domain events and of their publication.
    pub domain_events: DomainEventLog,
    /// The connections through which the store is reached.
    pub connection_pool: ConnectionPool,
}

impl Database {
    /// The invariant of the database: that of its store and of its pool.
    pub open spec fn wf(&self) -> bool {
        self.actions.wf() && self.domain_events.wf() && self.connection_pool.wf()
    }

    /// An empty store and an empty log behind a pool of the size the
    /// configuration asks for.
    pub fn from_config(config: &Config) -> (database: Database)
        ensures
            database.wf(),
            database.actions@ == Seq::<DomainActionView>::empty(),
            database.domain_events.events() == Seq::<DomainEvent>::empty(),
            database.domain_events.publishers() == Seq::<PublisherView>::empty(),
            database.domain_events.published() == Set::<(u128, u128)>::empty(),
            database.connection_pool.capacity() == config.connection_pool.max,
            database.connection_pool.in_use() == 0,
    {
        Database {
            actions: ActionStore::new(),
            domain_events: DomainEventLog::new(),
            connection_pool: ConnectionPool::new(&config.connection_pool),
        }
    }

    /// Lends a connection: see `ConnectionPool::get`.
    pub fn get_connection(&mut self) -> (outcome: Result<Connection, DatabaseError>)
        requires
            old(self).wf(),
        ensures
            final(self).wf(),
            final(self).actions == old(self).actions,
            final(self).domain_events == old(self).domain_events,
            final(self).connection_pool.capacity() == old(self).connection_pool.capacity(),
            match outcome {
                Ok(connection) => old(self).connection_pool.in_use() < old(
                    self,
                ).connection_pool.capacity() && final(self).connection_pool.in_use() == old(
                    self,
                ).connection_pool.in_use() + 1 && !connection.in_transaction(),
                Err(e) => old(self).connection_pool.in_use() >= old(
                    self,
                ).connection_pool.capacity() && final(self).connection_pool.in_use() == old(
                    self,
                ).connection_pool.in_use() && e.error_code == ErrorCode::ConnectionError,
            },
    {
        self.connection_pool.get()
    }

    /// Takes a connection back: see `ConnectionPool::put_back`.
    pub fn release(&mut self, connection: Connection)
        requires
            old(self).wf(),
        ensures
            final(self).wf(),
            final(self).actions == old(self).actions,
            final(self).domain_events == old(self).domain_events,
            final(self).connection_pool.capacity() == old(self).connection_pool.capacity(),
            final(self).connection_pool.in_use() == if old(self).connection_pool.in_use() > 0 {
                old(self).connection_pool.in_use() - 1
            } else {
                0
            },
    {
        self.connection_pool.put_back(connection)
    }
}

} // verus!
