//! GPU Guard: the verified core of a GPU-utilization monitor with a
//! Telegram bot and an interactive shell for managing background tasks.
pub mod bot;
pub mod cli;
pub mod config;
pub mod gpu;
pub mod host;
pub mod monitor;
pub mod task_manager;
pub mod telegram;
pub mod text;
