//! `jconf` keeps named sets of configuration files mirrored between their
//! origin locations and a per-name subdirectory of an output root.
//!
//! The library holds the verified core: resolving a raw path specification
//! into a base directory plus include/exclude glob patterns, reducing the
//! full configuration mapping to the entries a caller selected, and the
//! timestamp-driven synchronization engine that decides, per file, whether
//! a copy is due. The engine works on an in-memory picture of the two file
//! trees; the binary around the library walks the real filesystem, hands
//! the picture in, and performs the copies the engine decided on.

pub mod config_file;
pub mod env;
pub mod laws;
pub mod strutil;
pub mod sync;
