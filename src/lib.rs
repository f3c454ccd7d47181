//! A bounded, thread-safe collector of structured log events.
//!
//! Events are filtered by severity and origin, and the most recent ones are
//! kept in insertion order for later inspection.
pub mod collector;
pub mod event;
pub mod filter;
pub mod level;
pub mod retention;
