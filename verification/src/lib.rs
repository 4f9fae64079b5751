//! Verified core of creembar: a tray app that polls the creem.io
//! transaction API and announces every new paid transaction once.
//!
//! - `creem`: the transaction model and how API answers are read.
//! - `order`: stable ordering of transactions by creation time.
//! - `poller`: the notification ledger, the poll loop's decisions, and the
//!   tray and notification texts.
//! - `commands`: what the settings window's commands decide.
//! - `keychain`: the API key in the OS keychain.
//! - `clock`: the local start of today.
//! - `tray`: the tray menu's recent-payment lines.
//! - `text`: decimal rendering, case folding, parsing.
//! - `laws`: properties that span several polls.

pub mod clock;
pub mod commands;
pub mod creem;
pub mod keychain;
pub mod laws;
pub mod order;
pub mod poller;
pub mod text;
pub mod tray;
