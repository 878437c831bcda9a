//! What the endpoints decide.
//!
//! A handler takes a request from event to event: each event is what came of the last
//! action, and each answer is the next action. The actions are performed outside.
pub mod chat;
pub mod dispatch;
pub mod embeddings;
pub mod health;
pub mod metrics;
