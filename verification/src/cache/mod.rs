//! The two caches: exact, by a digest of the request, and semantic, by similarity.
pub mod exact;
pub mod semantic;
