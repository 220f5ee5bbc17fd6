//! Profile-aware Wi-Fi state machine with Tailscale handling.

pub mod backend;
pub mod bread_events;
pub mod calendar;
pub mod cli;
pub mod config;
pub mod daemon;
pub mod dict;
pub mod flow;
pub mod json;
pub mod login;
pub mod nm;
pub mod notify;
pub mod profiles;
pub mod scan;
pub mod state;
pub mod status;
pub mod tailscale;
pub mod text;
pub mod util;
pub mod watch;
