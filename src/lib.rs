//! A paste-to-link service: a content-addressed object store served over
//! HTTP, and the clipboard client that uploads to it.

pub mod auth;
pub mod client;
pub mod hotkey;
pub mod http;
pub mod ident;
pub mod json;
pub mod metadata;
pub mod server;
pub mod store;
pub mod text;
