pub mod commit;
pub mod init;
pub mod jump;
pub mod log;
pub mod merge;
pub mod new_branch;
pub mod status;
