//! A fairness-ordered waiting list for a scarce resource: the records of the
//! participants, the policy that selects who is next, and the three
//! operations that change the queue.
pub mod api;
pub mod crypto;
pub mod laws;
pub mod number;
pub mod participant;
pub mod policy;
pub mod ranking;
pub mod schema;
pub mod transactions;
