//! The logic of a local wiki server.

pub mod api;
pub mod api_laws;
pub mod clock;
pub mod digest;
pub mod extract;
pub mod extract_laws;
pub mod fs_ops;
pub mod fs_ops_laws;
pub mod glob;
pub mod json;
pub mod machine;
pub mod order;
pub mod paths;
pub mod pdf;
pub mod pdf_laws;
pub mod picture;
pub mod plan;
pub mod plan_laws;
pub mod process;
pub mod process_laws;
pub mod queue;
pub mod queue_laws;
pub mod related;
pub mod related_laws;
pub mod rescan_laws;
pub mod run_laws;
pub mod session_bus;
pub mod sync;
pub mod text;
pub mod text_laws;
pub mod user_data;
pub mod user_data_laws;
pub mod users;
pub mod watch;
pub mod watch_laws;
pub mod watcher;
