//! Verified core of a small Express-style HTTP framework.

pub mod api;
pub mod codec;
pub mod cookie;
pub mod cors;
pub mod error;
pub mod extract;
pub mod form;
pub mod headers;
pub mod json;
pub mod middleware;
pub mod openapi;
pub mod pattern;
pub mod rate_limit;
pub mod request;
pub mod response;
pub mod router;
pub mod serve;
pub mod server;
pub mod session;
pub mod sse;
pub mod state;
pub mod static_files;
pub mod text;
pub mod text_map;
pub mod text_set;
pub mod time;
pub mod tls;
pub mod trie;
pub mod uri;
pub mod users;
pub mod websocket;
