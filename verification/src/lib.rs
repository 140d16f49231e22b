//! Verified core of a bridge that carries Codex lifecycle notifications to a
//! QQ bot and lets one bound user drive Codex tasks from a chat.

use vstd::prelude::*;

pub mod account_commands;
pub mod account_switch;
pub mod chance;
pub mod claude_hook;
pub mod cli;
pub mod clock;
pub mod codex_app;
pub mod codex_control;
pub mod codex_login;
pub mod commands;
pub mod control_session;
pub mod daemon;
pub mod delivery;
pub mod desktop;
pub mod digest;
pub mod directories;
pub mod file_path;
pub mod formatting;
pub mod hook_event;
pub mod hooks;
pub mod identity;
pub mod json;
pub mod processes;
pub mod qq_client;
pub mod qq_menu;
pub mod qq_runtime;
pub mod ranking;
pub mod security;
pub mod store;
pub mod store_laws;
pub mod store_ops;
pub mod store_rows;
pub mod text;
pub mod turn_monitor;

verus! {

/// The version of the bridge.
pub const VERSION: &'static str = "0.2.0";

} // verus!
