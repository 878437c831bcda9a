//! What happens to a request before its handler: it is traced, its key is checked, and
//! it is charged to its client's limit, in this order.
pub mod auth;
pub mod rate_limit;
pub mod trace;
