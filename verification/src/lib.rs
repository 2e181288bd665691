//! Sliding-window failure tracking and nftables blackholing of hosts that
//! fail authentication.
//!
//! The library decides and computes: which journal lines name an offender,
//! which addresses may be banned at all, when a threshold is crossed, and what
//! is handed to `nft`, `journalctl` and `systemctl`. It performs no I/O.

pub mod address_laws;
pub mod admin;
pub mod cli;
pub mod command;
pub mod config;
pub mod daemon;
pub mod daemon_laws;
pub mod detector;
pub mod detector_laws;
pub mod ip;
pub mod ip_laws;
pub mod nft;
pub mod nft_laws;
pub mod ruleset;
pub mod setup_laws;
pub mod text;
pub mod text_laws;
pub mod time;
pub mod watch;
