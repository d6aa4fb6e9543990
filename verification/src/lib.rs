pub mod action;
pub mod call_laws;
pub mod chat;
pub mod chat_laws;
pub mod completions;
pub mod direct;
pub mod error;
pub mod guard;
pub mod history_laws;
pub mod opening;
pub mod outside;
pub mod plan_laws;
pub mod prompt;
pub mod prompt_laws;
pub mod request;
pub mod run_laws;
pub mod segmented;
pub mod sessions;
pub mod sse;
pub mod sse_laws;
pub mod text;
pub mod text_laws;
pub mod upload;
pub mod upload_laws;
pub mod view_laws;
pub mod watch;
pub mod watch_laws;
