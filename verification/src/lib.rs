//! Periodic price observation for a fixed set of assets.
//!
//! The crate holds the decisions of a price poller: which endpoint each asset
//! is quoted at, how a price is read out of a decoded quote envelope, how an
//! observation is framed as a line of an append-only record, and in which
//! order a polling driver fetches, persists and sleeps. Network and file
//! access are left to the caller, which performs the actions that the driver
//! hands out and reports back what happened.

pub mod asset;
pub mod cycle;
pub mod driver;
pub mod error;
pub mod quote;
pub mod record;
