//! Carrying out what a request asks for.
pub mod data_create_repo;
pub mod data_delete_repo;
pub mod data_read_repo;
pub mod data_trace_repo;
pub mod data_update_repo;
