//! A local package installation engine: artifacts are verified against their
//! declared digests, unpacked from compressed archives, and registered in a
//! durable state store that records every installed package.
//!
//! The crate is organised leaf-first: hashing, signatures and the archive
//! codec sit below the state store, and the install / uninstall / update /
//! verify transactions orchestrate them.

pub mod codec;
pub mod config;
pub mod download;
pub mod error;
pub mod hash;
pub mod hexcode;
pub mod ids;
pub mod install;
pub mod manifest;
pub mod output;
pub mod registry;
pub mod state;
pub mod signature;
pub mod statecodec;
pub mod strutil;
pub mod types;
pub mod uninstall;
pub mod update;
pub mod verify;
pub mod verify_install;
pub mod wire;
