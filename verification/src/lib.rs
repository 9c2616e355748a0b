//! Decisions, formats and bookkeeping of a peer-to-peer reverse proxy.
pub mod alpn;
pub mod client;
pub mod config;
pub mod consume;
pub mod control;
pub mod endpoint;
pub mod expose;
pub mod frame_text;
pub mod gui;
pub mod http;
pub mod identity;
pub mod json;
pub mod listing;
pub mod protocol;
pub mod ratelimit;
pub mod registry;
pub mod relay;
pub mod scan;
pub mod server;
pub mod static_http;
pub mod status;
pub mod text;
pub mod tunnel;
