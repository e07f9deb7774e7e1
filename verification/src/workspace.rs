//! Isolated workspace transactions.

pub mod apply;
pub mod apply_faults;
pub mod apply_laws;
pub mod change_laws;
pub mod changes;
pub mod error;
pub mod manifest;
pub mod path;
pub mod path_laws;
pub mod scope_laws;
pub mod transaction;
