//! Order bookkeeping for a small izakaya: tables hold orders, each order
//! gets a unique number, and request targets are routed to table, order
//! and file operations.

pub mod decimal;
pub mod errors;
pub mod grammar;
pub mod laws;
pub mod replies;
pub mod routes;
pub mod store;
