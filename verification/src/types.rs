//! Records handed to the shell.

use vstd::prelude::*;
use crate::config::StorageConfig;

verus! {

/// One entry of a listing: an object, or a virtual folder.
#[derive(Debug)]
pub struct File {
    /// The name to show: the file's own name where the object is encrypted,
    /// the last segment of the key otherwise.
    pub name: String,
    /// The key of the object, or the prefix of the folder.
    pub key: String,
    /// Size of the object in bytes; absent for a folder.
    pub size: Option<i64>,
    /// Whether the entry is a virtual folder.
    pub is_folder: bool,
    /// When the object was last modified, in seconds since the epoch;
    /// absent for a folder.
    pub last_modified: Option<i64>,
    /// Whether the entry's raw name is an identifier of the metadata index.
    pub encrypted: bool,
}

/// The configuration as the shell may see it: no secret leaves the engine.
pub struct UiConfig {
    /// Where the bucket lives.
    pub storage: StorageConfig,
    /// The access key.
    pub access_key_id: String,
    /// Whether a secret key is stored.
    pub has_secret: bool,
    /// Whether an encryption passphrase is stored.
    pub has_encryption_passphrase: bool,
}

} // verus!
