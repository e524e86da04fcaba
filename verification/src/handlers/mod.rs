//! The statuses of answers.
pub mod delete_handler;
pub mod email_handler;
pub mod import_handler;
pub mod post_handler;
pub mod put_handler;
pub mod trace_handler;
