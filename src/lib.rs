//! Availability checking of candidate identifiers against a remote service,
//! with a bounded number of probes in flight at once.
//!
//! The library holds the decisions: which candidates need a network query,
//! how a response is classified, and when the dispatcher admits the next
//! probe. Performing the requests and awaiting them is left to the caller.

pub mod dispatch;
pub mod probe;
