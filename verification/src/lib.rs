//! Verified core of a proxy that speaks the Responses API to its clients.

pub mod config;
pub mod content;
pub mod custom;
pub mod error;
pub mod headers;
pub mod ids;
pub mod json;
pub mod names;
pub mod proxy;
pub mod render;
pub mod request;
pub mod response;
pub mod sse;
pub mod text;
pub mod tools;
