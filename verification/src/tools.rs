//! Typed, policy-aware tools.

pub mod approval;
pub mod authority_laws;
pub mod batch;
pub mod builtin;
pub mod command_laws;
pub mod descriptor;
pub mod error;
pub mod evidence_laws;
pub mod feedback;
pub mod feedback_laws;
pub mod git;
pub mod listing;
pub mod observation;
pub mod output_laws;
pub mod patch;
pub mod patch_apply_laws;
pub mod patch_laws;
pub mod patch_text_laws;
pub mod patch_undo;
pub mod patching;
pub mod policy;
pub mod process;
pub mod process_backend;
pub mod process_error;
pub mod reading;
pub mod registry;
pub mod replacement_laws;
pub mod sandbox_laws;
pub mod schema;
pub mod search_laws;
pub mod searching;
pub mod structural;
pub mod writing;
