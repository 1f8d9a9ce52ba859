//! A server of web search and research tools that speaks the Model Context Protocol.
//!
//! The crate decides what the server does: what it replies to a message, what it asks of the
//! search service, when it tries again, and what text it makes of an answer or of a page. The
//! program around it reads and writes, sends requests, and waits.

pub mod auth;
pub mod backend;
pub mod charset;
pub mod citations;
pub mod commands;
pub mod html;
pub mod json;
pub mod logging;
pub mod patterns;
pub mod render;
pub mod results;
pub mod server;
pub mod session;
pub mod text;
pub mod tools;
