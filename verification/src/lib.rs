pub mod auth;
pub mod chat_completion;
pub mod chat_events;
pub mod chat_request;
pub mod chat_stream;
pub mod config;
pub mod headers;
pub mod history;
pub mod ids;
pub mod json;
pub mod log_rotation;
pub mod models;
pub mod order;
pub mod passthrough;
pub mod paths;
pub mod replies;
pub mod request_logger;
pub mod response_store;
pub mod responses;
pub mod server;
pub mod sse;
pub mod text;
pub mod tools;
pub mod upstream;
