//! The configuration record: where the bucket lives and how to reach it.

use vstd::prelude::*;
use crate::text::is_blank;
use crate::text::is_blank_text;
use crate::types::UiConfig;

verus! {

/// Where the bucket lives.
pub struct StorageConfig {
    /// Endpoint of the store; blank for the provider's default.
    pub endpoint: String,
    /// Name of the bucket.
    pub bucket: String,
    /// Region of the bucket.
    pub region: String,
}

/// How to reach the bucket, and the passphrase files are encrypted under.
pub struct CredentialsConfig {
    /// The access key.
    pub access_key_id: String,
    /// The secret key.
    pub secret_access_key: String,
    /// The passphrase that keys are derived from.
    pub encryption_passphrase: String,
}

/// The whole configuration.
pub struct Config {
    /// Where the bucket lives.
    pub storage: StorageConfig,
    /// How to reach it.
    pub credentials: CredentialsConfig,
}

impl Default for StorageConfig {
    fn default() -> (out: StorageConfig)
        ensures
            out.endpoint@.len() == 0,
            out.bucket@.len() == 0,
            out.region@.len() == 0,
    {
        StorageConfig { endpoint: String::new(), bucket: String::new(), region: String::new() }
    }
}

impl Default for CredentialsConfig {
    fn default() -> (out: CredentialsConfig)
        ensures
            out.access_key_id@.len() == 0,
            out.secret_access_key@.len() == 0,
            out.encryption_passphrase@.len() == 0,
    {
        CredentialsConfig {
            access_key_id: String::new(),
            secret_access_key: String::new(),
            encryption_passphrase: String::new(),
        }
    }
}

impl Default for Config {
    fn default() -> (out: Config)
        ensures
            out.storage.endpoint@.len() == 0,
            out.storage.bucket@.len() == 0,
            out.storage.region@.len() == 0,
            out.credentials.access_key_id@.len() == 0,
            out.credentials.secret_access_key@.len() == 0,
            out.credentials.encryption_passphrase@.len() == 0,
    {
        Config { storage: StorageConfig::default(), credentials: CredentialsConfig::default() }
    }
}

impl StorageConfig {
    /// Whether an endpoint of its own is configured. With one, the store is
    /// addressed path-style at that endpoint; without, at the provider's
    /// default.
    pub fn has_custom_endpoint(&self) -> (b: bool)
        ensures
            b == !is_blank(self.endpoint@),
    {
        !is_blank_text(self.endpoint.as_str())
    }

    /// A copy of the record.
    pub fn duplicate(&self) -> (out: StorageConfig)
        ensures
            out.endpoint@ == self.endpoint@,
            out.bucket@ == self.bucket@,
            out.region@ == self.region@,
    {
        StorageConfig {
            endpoint: self.endpoint.clone(),
            bucket: self.bucket.clone(),
            region: self.region.clone(),
        }
    }
}

impl CredentialsConfig {
    /// Whether neither an access key nor a secret key is set: both are
    /// blank.
    pub fn is_empty(&self) -> (b: bool)
        ensures
            b == (is_blank(self.access_key_id@) && is_blank(self.secret_access_key@)),
    {
        is_blank_text(self.access_key_id.as_str()) && is_blank_text(
            self.secret_access_key.as_str(),
        )
    }

    /// Empties the access key and the secret key.
    pub fn clear(&mut self)
        ensures
            final(self).access_key_id@ == Seq::<char>::empty(),
            final(self).secret_access_key@ == Seq::<char>::empty(),
            final(self).encryption_passphrase@ == old(self).encryption_passphrase@,
    {
        self.access_key_id = String::new();
        self.secret_access_key = String::new();
    }
}

/// Whether a configuration can be used: bucket, region, access key and
/// secret key are all set.
pub open spec fn valid_config(config: Config) -> bool {
    &&& config.storage.bucket@.len() > 0
    &&& config.storage.region@.len() > 0
    &&& config.credentials.access_key_id@.len() > 0
    &&& config.credentials.secret_access_key@.len() > 0
}

/// The value a secret has after an update: the new value where one is given
/// that is not blank, the old value otherwise.
pub open spec fn updated_secret(old_value: Seq<char>, given: Option<Seq<char>>) -> Seq<char> {
    match given {
        Some(value) => if is_blank(value) {
            old_value
        } else {
            value
        },
        None => old_value,
    }
}

/// Applies the rule of [`updated_secret`] to one stored secret.
fn update_secret(slot: &mut String, given: Option<String>)
    ensures
        final(slot)@ == updated_secret(
            old(slot)@,
            match given {
                Some(value) => Some(value@),
                None => None,
            },
        ),
{
    match given {
        Some(value) => {
            if !is_blank_text(value.as_str()) {
                *slot = value;
            }
        },
        None => {},
    }
}

impl Config {
    /// Whether the configuration can be used.
    pub fn is_valid(&self) -> (b: bool)
        ensures
            b == valid_config(*self),
    {
        !self.storage.bucket.as_str().is_empty() && !self.storage.region.as_str().is_empty()
            && !self.credentials.access_key_id.as_str().is_empty()
            && !self.credentials.secret_access_key.as_str().is_empty()
    }

    /// Updates the configuration from what the shell sent. Endpoint,
    /// bucket, region and access key are replaced. The secret key and the
    /// passphrase are replaced only by a value that is not blank: one that
    /// arrives empty keeps what is stored.
    pub fn apply_update(
        &mut self,
        endpoint: String,
        bucket: String,
        region: String,
        access_key: String,
        secret_key: Option<String>,
        encryption_passphrase: Option<String>,
    )
        ensures
            final(self).storage.endpoint@ == endpoint@,
            final(self).storage.bucket@ == bucket@,
            final(self).storage.region@ == region@,
            final(self).credentials.access_key_id@ == access_key@,
            final(self).credentials.secret_access_key@ == updated_secret(
                old(self).credentials.secret_access_key@,
                match secret_key {
                    Some(value) => Some(value@),
                    None => None,
                },
            ),
            final(self).credentials.encryption_passphrase@ == updated_secret(
                old(self).credentials.encryption_passphrase@,
                match encryption_passphrase {
                    Some(value) => Some(value@),
                    None => None,
                },
            ),
    {
        self.storage.endpoint = endpoint;
        self.storage.bucket = bucket;
        self.storage.region = region;
        self.credentials.access_key_id = access_key;
        update_secret(&mut self.credentials.secret_access_key, secret_key);
        update_secret(&mut self.credentials.encryption_passphrase, encryption_passphrase);
    }

    /// What the shell may see of the configuration: the storage record, the
    /// access key, and whether a secret key and a passphrase are stored.
    pub fn ui_config(&self) -> (out: UiConfig)
        ensures
            out.storage.endpoint@ == self.storage.endpoint@,
            out.storage.bucket@ == self.storage.bucket@,
            out.storage.region@ == self.storage.region@,
            out.access_key_id@ == self.credentials.access_key_id@,
            out.has_secret == (self.credentials.secret_access_key@.len() > 0),
            out.has_encryption_passphrase == (self.credentials.encryption_passphrase@.len() > 0),
    {
        UiConfig {
            storage: self.storage.duplicate(),
            access_key_id: self.credentials.access_key_id.clone(),
            has_secret: !self.credentials.secret_access_key.as_str().is_empty(),
            has_encryption_passphrase: !self.credentials.encryption_passphrase.as_str().is_empty(),
        }
    }
}

} // verus!
