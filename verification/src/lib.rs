//! Engine of a file manager for S3-compatible object storage, with
//! client-side encryption that hides the names of files as well as their
//! contents.
//!
//! The engine decides and computes; whoever embeds it talks to the store,
//! the disk and the shell. It says how a file goes up ([`upload`],
//! [`multipart`]), how an object comes down ([`download`], [`stream`]), what
//! a folder shows ([`listing`]) and what a delete removes ([`delete`]). Files
//! are sealed chunk by chunk under a key derived from a passphrase and the
//! file's name ([`crypto`]); the names behind the stored identifiers
//! ([`ident`]) are kept in a sealed index ([`metadata`]).

pub mod config;
pub mod crypto;
pub mod delete;
pub mod download;
pub mod events;
pub mod ident;
pub mod listing;
pub mod metadata;
pub mod multipart;
pub mod stream;
pub mod text;
pub mod types;
pub mod upload;
