//! A small content-addressed object store that is compatible, byte for byte,
//! with the loose-object layout of git: blobs, trees and commits are framed,
//! hashed with SHA-1, compressed with zlib and placed under a two-character
//! fan-out directory.
//!
//! Everything in this crate is pure: it computes identifiers, payloads and the
//! bytes and paths of the files that make up a repository, and leaves the
//! reading and writing of those files to its caller.

pub mod alike;
pub mod bytes;
pub mod commands;
pub mod commit;
pub mod digest;
pub mod error;
pub mod hex_text;
pub mod layout;
pub mod object;
pub mod oid;
pub mod order;
pub mod store;
pub mod text;
pub mod transport;
pub mod tree;
pub mod worktree;
pub mod zlib;
