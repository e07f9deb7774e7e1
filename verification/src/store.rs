//! Durable storage: content-addressed artifacts and append-only events.

pub mod artifact;
pub mod event_store;
pub mod record_laws;
