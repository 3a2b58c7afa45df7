pub mod autostart;
pub mod cli;
pub mod config;
pub mod hook;
pub mod ipc;
pub mod launch;
pub mod magnifier;
pub mod mem_report;
pub mod overlay;
pub mod popup;
pub mod state;
pub mod text;
pub mod tray;
pub mod wire;
