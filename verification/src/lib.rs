//! Verified core of `qctl`, a manager for Podman quadlet files and their
//! `systemd --user` units.

pub mod text;
pub mod names;
pub mod volume;
pub mod menu;
pub mod command;
pub mod paths;
pub mod quadlets;
pub mod context;
pub mod plan;
pub mod table;
pub mod status;
pub mod laws;
