//! Secure peer-to-peer file transfer: a content-addressed chunk store, signed
//! file manifests, length-prefixed framing, an ephemeral key-agreement
//! handshake with encrypted framing, and the sender / receiver state machines
//! that compose them.
use vstd::prelude::*;

pub mod config;
pub mod crypto;
pub mod discovery;
pub mod encoding;
pub mod frame;
pub mod handshake;
pub mod keys;
pub mod manifest;
pub mod storage;
pub mod text;
pub mod transfer;

pub use config::ClientConfig;
pub use keys::Identity;
pub use manifest::Manifest;
pub use storage::{LocalStorage, MemoryStorage, Storage};

verus! {

} // verus!
