//! Verified core of the Pactrail agent runtime.

pub mod digest;
pub mod json;
pub mod models;
pub mod outcome;
pub mod slots;
pub mod store;
pub mod text;
pub mod text_laws;
pub mod tools;
pub mod workspace;
