//! Verified core of QuotaDial, a dashboard for Codex subscription quotas:
//! the quota forecast and trend, the monitor's decisions, the session-log
//! parser and incremental importer, notification decisions, pricing,
//! settings, and what the tray shows.

pub mod domain;
pub mod wide;
pub mod ratio;
pub mod order;
pub mod series;
pub mod spread;
pub mod forecast;
pub mod text;
pub mod quota_trend;
pub mod settings;
pub mod notifications;
pub mod pricing;
pub mod tray;
pub mod clock;
pub mod parser;
pub mod monitor;
pub mod importer;
pub mod badge;
pub mod launcher;
pub mod rpc;
pub mod discovery;
