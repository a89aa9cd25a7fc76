pub mod text;
pub mod types;
pub mod account;
pub mod adb;
pub mod ldplayer;
pub mod template;
pub mod config;
pub mod windows;
pub mod control;
pub mod tasks;
pub mod nph;
