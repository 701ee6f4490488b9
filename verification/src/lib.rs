//! A small appliance web server library: a hand-rolled HTTP/1.1 request
//! parser, a router dispatching to file-serving and configuration endpoints,
//! and a bundle-scoped configuration registry, an ordered key/value store
//! whose callers persist every mutation through to disk.

pub mod app_manager;
pub mod configuration;
pub mod dashboard;
pub mod http;
pub mod laws;
pub mod network;
pub mod response;
pub mod router;
pub mod strmap;
pub mod system_state;
pub mod text;
pub mod value;
