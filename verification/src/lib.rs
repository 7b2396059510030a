//! Parsing of the text that the AdGuard VPN command-line client prints, and the
//! decisions that the desktop front end takes on the client's replies.

pub mod text;
pub mod ansi;
pub mod columns;
pub mod types;
pub mod status;
pub mod locations;
pub mod license;
pub mod config;
pub mod cli;
