//! The form payloads each page posts, and the decisions its handler makes
//! on them before (or instead of) touching the disk, systemd or podman.
pub mod edit_delete;
pub mod environment;
pub mod gitsync;
pub mod groups;
pub mod ports;
pub mod raw_create;
pub mod secrets;
pub mod selfupdate;
pub mod settings;
pub mod unit_actions;
pub mod unit_edit;
pub mod unit_ops;
pub mod validate;
