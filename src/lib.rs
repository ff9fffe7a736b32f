//! A champion title that challengers contest through an outside judge.
//!
//! A challenge is parked as a request until the operator stages a judgment
//! and the host resumes it; the resume retires the request and hands over the
//! title only for a win judged against the live champion.
pub mod contract;
pub mod laws;
pub mod model;
pub mod store;
pub mod types;
pub mod validate;
