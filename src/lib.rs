pub mod event;
pub mod dispatch;
pub mod backoff;
pub mod config;
pub mod bot;
pub mod bacronym;
pub mod plugins;
