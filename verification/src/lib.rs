//! Core logic of a local daemon that installs custom rhythm-game songs
//! ("maps") and mods onto configured game installations: catalog version
//! selection, canonical content hashing, the per-target map index with its
//! persisted file format, install deduplication, installer command
//! construction, retry policy, download scheduling, and the control-plane
//! message protocol. Host I/O (HTTP, filesystem, subprocesses, sockets)
//! stays outside; this crate states and proves what each decision returns.

pub mod beatsaver;
pub mod chars;
pub mod config;
pub mod hex;
pub mod http_client;
pub mod index_file;
pub mod installer;
pub mod map_index;
pub mod queue_handler;
pub mod webserver;
pub mod websocket_handler;
