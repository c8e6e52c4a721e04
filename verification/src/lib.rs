//! Verified core of a Taiwan stock-watching chat bot: user and access
//! management, price alerts with cooldown, quote and message formatting,
//! stock-list search, schedule computation and the command decisions.

pub mod text;
pub mod numtext;
pub mod assoc;
pub mod config;
pub mod searcher;
pub mod user_store;
pub mod fetcher;
pub mod clock;
pub mod alerts;
pub mod formatter;
pub mod scheduler;
pub mod analyzer;
pub mod bot;
