//! Platform plumbing that is pure computation: systemd unit files and commands.

pub mod systemd;
