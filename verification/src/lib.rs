pub mod assets;
pub mod cache;
pub mod clock;
pub mod calendar;
pub mod config;
pub mod helper_reply;
pub mod http;
pub mod json;
pub mod launch;
pub mod migration;
pub mod pricing;
pub mod proxy;
pub mod stats;
pub mod text;
pub mod toml_text;
pub mod usage;
