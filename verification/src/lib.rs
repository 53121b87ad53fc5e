pub mod buffer;
pub mod config;
pub mod connection;
pub mod error;
pub mod event_loop;
pub mod http;
pub mod memory;
pub mod metrics;
pub mod text;
