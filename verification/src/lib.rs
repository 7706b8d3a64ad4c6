pub mod text;
pub mod maps;
pub mod config;
pub mod providers;
pub mod fetcher;
pub mod error;
pub mod redis_store;
pub mod http;
