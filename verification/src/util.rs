pub mod branch;
pub mod commit;
pub mod error;
pub mod hash;
pub mod listing;
pub mod snapshot;
pub mod vcs_state;
pub mod text;
