//! A small TODO service: title validation, the in-memory store with its
//! laws, error statuses and messages, and configuration from key/value pairs.

pub mod config;
pub mod error;
pub mod text;
pub mod todo;
