//! An incremental, content-addressed backup engine.
//!
//! A directory snapshot is compared against the manifest of the previous run
//! using BLAKE3 content hashes; changed files are compressed with zstd and
//! optionally sealed with AES-256-GCM before they are handed to the caller as
//! destination blobs, together with an updated manifest.  Restoration runs the
//! same pipeline backwards.  All traversal and file I/O stays with the caller:
//! the engine works on plain in-memory values, so every rule it applies is
//! stated in a contract and verified.

pub mod clock;
pub mod codec;
pub mod commands;
pub mod crypto;
pub mod executor;
pub mod manifest;
pub mod restore;
pub mod scanner;
pub mod text;
