use vstd::prelude::*;

verus! {

/// Settings of the HTTP server that hosts the dispatcher.
#[derive(Clone, Copy, Debug)]
pub struct Actix {
    pub workers: Option<usize>,
}

/// The settings the dispatcher and the publisher of domain events read.
#[derive(Debug)]
pub struct Config {
    pub actix: Actix,
    /// The address of the front end, which publishers put into what they
    /// send.
    pub front_end_url: String,
    pub connection_pool: ConnectionPoolConfig,
}

impl Clone for Config {
    fn clone(&self) -> (copy: Config)
        ensures
            copy.actix == self.actix,
            copy.front_end_url@ == self.front_end_url@,
            copy.connection_pool == self.connection_pool,
    {
        Config {
            actix: self.actix,
            front_end_url: self.front_end_url.clone(),
            connection_pool: self.connection_pool,
        }
    }
}

/// Bounds of the pool of store connections that the dispatcher shares with
/// the executors it starts.
#[derive(Clone, Copy, Debug)]
pub struct ConnectionPoolConfig {
    pub min: u32,
    pub max: u32,
}

/// The largest number of actions one dispatch pass may take on: half of the
/// pool, and at least one.
pub open spec fn batch_limit(max: u32) -> int {
    if max / 2 >= 1 {
        (max / 2) as int
    } else {
        1
    }
}

impl ConnectionPoolConfig {
    /// How many actions one dispatch pass may take on, so that every action
    /// that runs can still get a connection of its own.
    pub fn dispatch_limit(&self) -> (limit: usize)
        ensures
            limit == batch_limit(self.max),
            1 <= limit,
            self.max >= 2 ==> 2 * limit <= self.max,
    {
        let half: u32 = self.max / 2;
        if half >= 1 {
            half as usize
        } else {
            1
        }
    }
}

} // verus!
