//! Session save and restore for tiling window managers: the configuration
//! rules that classify windows, the registry of open windows, the plans that
//! a session save, load or replace carries out, and the wire protocol
//! between the command-line client and the daemon.

pub mod text;
pub mod procinfo;
pub mod matching;
pub mod config;
pub mod window;
pub mod session;
pub mod protocol;
pub mod commands;
pub mod hyprland;
pub mod kuukiyomu;
pub mod proto;
