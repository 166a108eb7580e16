//! Verified core of an H3C SSL VPN client: configuration rules, secret
//! redaction, route planning, the daemon's session decisions and the
//! H3C data-plane framing.

pub mod text;
pub mod redact;
pub mod error;
pub mod state;
pub mod openconnect;
pub mod ipv4;
pub mod plan;
pub mod command;
pub mod routectl;
pub mod linux;
pub mod macos;
pub mod config;
pub mod platform;
pub mod ipc;
pub mod daemon;
pub mod engine;
pub mod health;
pub mod dispatch;
pub mod netwatch;
pub mod service;
pub mod paths;
