//! The tracker: what is asked of it, and what its answer says.

pub mod query;
pub mod response;
pub mod session;
