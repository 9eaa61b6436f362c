//! Extraction of username/password pairs from a hierarchical credential
//! store into environment variables: either a `KEY=VALUE` file or the
//! environment of a child process.
//!
//! The crate holds the verified core: resolving a slash-separated root
//! path into segments, walking the group/entry tree collecting exportable
//! pairs, and accumulating those pairs in a destination-agnostic sink.
//! Opening the encrypted store, prompting for a password, file output and
//! process launch are left to the surrounding program.

pub mod config;
pub mod format;
pub mod laws;
pub mod path;
pub mod sink;
pub mod tree;
pub mod walk;
