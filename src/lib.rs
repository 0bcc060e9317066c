//! A URL shortener's core: the batching hit counter that coalesces visits
//! into one store increment per key and window, and the request decisions
//! around it.

pub mod window;
pub mod tracker;
pub mod config;
pub mod routing;
pub mod admin;
