//! The core of DriveFUSE: the registry of remote storages and the
//! orchestration of their mounts.
//!
//! - `codec` reads and writes the registry text, `token` the credentials in
//!   it, `rclone` keeps the storages and edits the text; `codec_laws` proves
//!   the round trip.
//! - `platform` knows what differs between operating systems: targets and
//!   command lines. `mounting` keeps one handle for each mounted storage;
//!   `mount_laws` proves what holds of it whatever the spawned commands do.
//! - `app_config`, `enums`, `error_app`, `name_map` and `text` are the
//!   preferences and the small parts that the others are made of.
//!
//! The library runs no process and touches no file. It builds command lines
//! and decides what follows from their outcome; the caller runs them.

pub mod app_config;
pub mod codec;
pub mod codec_laws;
pub mod enums;
pub mod error_app;
pub mod mount_laws;
pub mod mounting;
pub mod name_map;
pub mod platform;
pub mod rclone;
pub mod text;
pub mod token;
