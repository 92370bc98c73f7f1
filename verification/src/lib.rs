//! The core of a proof-of-work miner that works for a mining pool.
//!
//! A round of work belongs to one challenge. [`poller`] decides when a round
//! is due and how long it may take, [`partition`] splits the nonce space
//! among the workers of the round, [`worker`] is the search of one worker,
//! [`aggregate`] reduces the workers' results to the best of the round, and
//! [`payload`] is the form in which that best is submitted. [`settings`]
//! holds what a miner is started with, and [`bytes`] the little-endian
//! integers of the wire format.
//!
//! Reading the ledger, running the workers on threads and talking to the pool
//! are left to the program that uses this library.

pub mod aggregate;
pub mod bytes;
pub mod partition;
pub mod payload;
pub mod poller;
pub mod settings;
pub mod worker;
