//! Request-dispatch engine of a multi-tenant HTTP reverse proxy: configuration schema,
//! access lists, routing table, dispatcher, upstream sets, static-file and error-page
//! decisions, certificate registry and the handler's header and log formatting.
pub mod text;
pub mod config;
pub mod access;
pub mod router;
pub mod dispatch;
pub mod upstream;
pub mod static_files;
pub mod error_pages;
pub mod ssl;
pub mod handler;
