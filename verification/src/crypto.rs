//! Key derivation and per-chunk authenticated encryption.
//!
//! A key is derived from a passphrase and a salt with Argon2id. Data is cut
//! into chunks of at most [`CHUNK_SIZE`] bytes; each chunk is sealed with
//! XChaCha20-Poly1305 under a fresh random nonce and written as one record:
//! the nonce, the ciphertext, the tag. An encrypted object is the records of
//! its chunks in order, with nothing between or around them.

use vstd::prelude::*;
use vstd::slice::slice_subrange;
use vstd::slice::slice_to_vec;
use chacha20poly1305::AeadCore;
use chacha20poly1305::AeadInPlace;
use chacha20poly1305::KeyInit;
use crate::ident::fresh_uuid;
use crate::ident::is_uuid_text;

verus! {

/// Largest number of plaintext bytes in one record.
pub const CHUNK_SIZE: usize = 1048576;

/// Length of the nonce that opens every record.
pub const NONCE_SIZE: usize = 24;

/// Length of the authentication tag that closes every record.
pub const TAG_SIZE: usize = 16;

/// Bytes a record adds to its plaintext: nonce and tag.
pub const RECORD_OVERHEAD: usize = 40;

/// Length of a record that carries a full chunk.
pub const RECORD_SIZE: usize = 1048616;

/// Length of a derived key.
pub const KEY_SIZE: usize = 32;

/// Shortest salt the key derivation accepts.
pub const MIN_SALT_LEN: usize = 8;

/// Why a cryptographic operation was refused.
#[derive(Clone, Copy, Debug, PartialEq, Eq, Structural)]
pub enum CryptoError {
    /// The key derivation refused the passphrase or the salt.
    KeyDerivation,
    /// A key was not exactly [`KEY_SIZE`] bytes long.
    InvalidKeyLength,
    /// A plaintext chunk was longer than [`CHUNK_SIZE`].
    ChunkTooLarge,
    /// The ciphertext cannot be a record, or a sequence of records.
    MalformedLength,
    /// A record did not authenticate under the key.
    Authentication,
}

impl CryptoError {
    /// A short description for display.
    pub fn message(&self) -> (text: &'static str)
        ensures
            text@.len() > 0,
    {
        match self {
            CryptoError::KeyDerivation => {
                proof {
                    reveal_strlit("key derivation failed");
                }
                "key derivation failed"
            },
            CryptoError::InvalidKeyLength => {
                proof {
                    reveal_strlit("invalid key length");
                }
                "invalid key length"
            },
            CryptoError::ChunkTooLarge => {
                proof {
                    reveal_strlit("chunk too large");
                }
                "chunk too large"
            },
            CryptoError::MalformedLength => {
                proof {
                    reveal_strlit("malformed ciphertext length");
                }
                "malformed ciphertext length"
            },
            CryptoError::Authentication => {
                proof {
                    reveal_strlit("authentication failed");
                }
                "authentication failed"
            },
        }
    }
}

/// `argon2::Error`: why a key derivation was refused. It is carried through
/// and never looked into.
#[verifier::external_type_specification]
#[verifier::external_body]
pub struct ExArgon2Error(argon2::Error);

/// `chacha20poly1305::Error`: that sealing or opening was refused. It tells
/// nothing more.
#[verifier::external_type_specification]
#[verifier::external_body]
pub struct ExAeadError(chacha20poly1305::Error);

/// The 32-byte Argon2id hash (version 0x13, 19 MiB, 2 passes, 1 lane, no
/// secret, no associated data) of a passphrase under a salt.
pub uninterp spec fn argon2id_key(password: Seq<u8>, salt: Seq<u8>) -> Seq<u8>;

/// The XChaCha20-Poly1305 ciphertext and tag of a plaintext under a key and a
/// nonce, with empty associated data.
pub uninterp spec fn aead_seal(key: Seq<u8>, nonce: Seq<u8>, plaintext: Seq<u8>) -> Seq<u8>;

/// The plaintext that XChaCha20-Poly1305 releases for a ciphertext with its
/// tag under a key and a nonce, with empty associated data; `None` where it
/// refuses.
pub uninterp spec fn aead_open(key: Seq<u8>, nonce: Seq<u8>, sealed: Seq<u8>) -> Option<Seq<u8>>;

/// The passphrase and salt lengths that the key derivation accepts.
pub open spec fn kdf_accepts(password: Seq<u8>, salt: Seq<u8>) -> bool {
    &&& password.len() <= 0xFFFF_FFFF
    &&& MIN_SALT_LEN <= salt.len() <= 0xFFFF_FFFF
}

/// `argon2::Argon2::default().hash_password_into` with a 32-byte output.
///
/// Trusted: the call succeeds exactly on the lengths of [`kdf_accepts`] (the
/// crate rejects a passphrase or salt over 2^32 - 1 bytes and a salt under 8),
/// and the output is a function of passphrase and salt alone.
#[verifier::external_body]
fn argon2_hash(password: &[u8], salt: &[u8]) -> (r: Result<[u8; 32], argon2::Error>)
    ensures
        r is Ok <==> kdf_accepts(password@, salt@),
        r matches Ok(key) ==> key@ == argon2id_key(password@, salt@),
{
    let mut key = [0u8; 32];
    match argon2::Argon2::default().hash_password_into(password, salt, &mut key) {
        Ok(()) => Ok(key),
        Err(e) => Err(e),
    }
}

/// `AeadCore::generate_nonce` of XChaCha20-Poly1305 over the system's random
/// source.
///
/// Trusted: nothing is claimed of the bytes.
#[verifier::external_body]
fn fresh_nonce() -> (nonce: [u8; 24]) {
    chacha20poly1305::XChaCha20Poly1305::generate_nonce(&mut chacha20poly1305::aead::OsRng).into()
}

/// `AeadInPlace::encrypt_in_place` of XChaCha20-Poly1305 with empty
/// associated data.
///
/// Trusted: the call is refused only for a buffer of 2^32 - 1 blocks of 64
/// bytes or more, and then leaves the buffer alone; otherwise the buffer
/// becomes the ciphertext followed by the 16-byte tag, a function of key,
/// nonce and plaintext, which the same key and nonce open to the plaintext.
#[verifier::external_body]
fn aead_encrypt(key: &[u8; 32], nonce: &[u8; 24], buffer: &mut Vec<u8>) -> (r: Result<
    (),
    chacha20poly1305::Error,
>)
    ensures
        r is Ok <==> old(buffer)@.len() / 64 < 0xFFFF_FFFF,
        r is Ok ==> final(buffer)@ == aead_seal(key@, nonce@, old(buffer)@),
        r is Ok ==> final(buffer)@.len() == old(buffer)@.len() + TAG_SIZE,
        r is Ok ==> aead_open(key@, nonce@, final(buffer)@) == Some(old(buffer)@),
        r is Err ==> final(buffer)@ == old(buffer)@,
{
    let cipher = chacha20poly1305::XChaCha20Poly1305::new(key.into());
    cipher.encrypt_in_place(nonce.into(), b"", buffer)
}

/// `AeadInPlace::decrypt_in_place` of XChaCha20-Poly1305 with empty
/// associated data.
///
/// Trusted: whether the call succeeds and what it releases is a function of
/// key, nonce and buffer; on success the buffer held at least the tag and is
/// cut to the plaintext, 16 bytes shorter; on refusal it is left alone.
#[verifier::external_body]
fn aead_decrypt(key: &[u8; 32], nonce: &[u8; 24], buffer: &mut Vec<u8>) -> (r: Result<
    (),
    chacha20poly1305::Error,
>)
    ensures
        r is Ok <==> aead_open(key@, nonce@, old(buffer)@) is Some,
        r is Ok ==> aead_open(key@, nonce@, old(buffer)@) == Some(final(buffer)@),
        r is Ok ==> old(buffer)@.len() >= TAG_SIZE && final(buffer)@.len() + TAG_SIZE == old(
            buffer,
        )@.len(),
        r is Err ==> final(buffer)@ == old(buffer)@,
{
    let cipher = chacha20poly1305::XChaCha20Poly1305::new(key.into());
    cipher.decrypt_in_place(nonce.into(), b"", buffer)
}

/// Derives the 32-byte key of a passphrase under a salt.
///
/// Fails with [`CryptoError::KeyDerivation`] exactly when the lengths are
/// outside what the derivation accepts; a salt under eight bytes is.
pub fn derive_key(password: &[u8], salt: &[u8]) -> (r: Result<[u8; 32], CryptoError>)
    ensures
        r is Ok <==> kdf_accepts(password@, salt@),
        r matches Ok(key) ==> key@ == argon2id_key(password@, salt@),
        r matches Err(e) ==> e == CryptoError::KeyDerivation,
{
    match argon2_hash(password, salt) {
        Ok(key) => Ok(key),
        Err(_) => Err(CryptoError::KeyDerivation),
    }
}

/// What a record opens to under a key: the record's first 24 bytes are the
/// nonce, the rest is ciphertext and tag. `None` where the record is too
/// short to hold nonce and tag, or does not authenticate.
pub open spec fn open_record(key: Seq<u8>, record: Seq<u8>) -> Option<Seq<u8>> {
    if record.len() < RECORD_OVERHEAD {
        None
    } else {
        aead_open(key, record.take(NONCE_SIZE as int), record.skip(NONCE_SIZE as int))
    }
}

/// Whether `record` is the sealing of `plaintext` under `key` and the nonce
/// that the record itself carries.
pub open spec fn is_record_of(key: Seq<u8>, plaintext: Seq<u8>, record: Seq<u8>) -> bool {
    &&& record.len() == plaintext.len() + RECORD_OVERHEAD
    &&& record.skip(NONCE_SIZE as int) == aead_seal(
        key,
        record.take(NONCE_SIZE as int),
        plaintext,
    )
}

/// Copies a 32-byte slice into an array.
fn key_array(key: &[u8]) -> (out: [u8; 32])
    requires
        key@.len() == KEY_SIZE,
    ensures
        out@ == key@,
{
    let mut out = [0u8; 32];
    let mut i: usize = 0;
    while i < 32
        invariant
            i <= 32,
            key@.len() == 32,
            forall|j: int| 0 <= j < i ==> out@[j] == key@[j],
        decreases 32 - i,
    {
        out[i] = key[i];
        i += 1;
    }
    assert(out@ =~= key@);
    out
}

/// Copies the first 24 bytes of a slice into an array.
fn nonce_array(bytes: &[u8]) -> (out: [u8; 24])
    requires
        bytes@.len() >= NONCE_SIZE,
    ensures
        out@ == bytes@.take(NONCE_SIZE as int),
{
    let mut out = [0u8; 24];
    let mut i: usize = 0;
    while i < 24
        invariant
            i <= 24,
            bytes@.len() >= 24,
            forall|j: int| 0 <= j < i ==> out@[j] == bytes@[j],
        decreases 24 - i,
    {
        out[i] = bytes[i];
        i += 1;
    }
    assert(out@ =~= bytes@.take(24));
    out
}

/// Seals one chunk under a 32-byte key and a fresh random nonce.
fn seal_chunk(plaintext: &[u8], key: &[u8; 32]) -> (record: Vec<u8>)
    requires
        plaintext@.len() <= CHUNK_SIZE,
    ensures
        is_record_of(key@, plaintext@, record@),
        open_record(key@, record@) == Some(plaintext@),
{
    let nonce = fresh_nonce();
    let mut body = slice_to_vec(plaintext);
    let sealed = aead_encrypt(key, &nonce, &mut body);
    assert(sealed is Ok) by {
        assert(plaintext@.len() / 64 < 0xFFFF_FFFF);
    }
    let mut record = slice_to_vec(nonce.as_slice());
    record.append(&mut body);
    proof {
        assert(record@.take(NONCE_SIZE as int) =~= nonce@);
        assert(record@.skip(NONCE_SIZE as int) =~= aead_seal(key@, nonce@, plaintext@));
    }
    record
}

/// Seals one chunk of at most [`CHUNK_SIZE`] bytes into a record: a fresh
/// random nonce, the ciphertext, the tag.
///
/// The record is 40 bytes longer than the chunk, and [`decrypt_chunk`] under
/// the same key gives the chunk back. A key that is not 32 bytes long is
/// refused first, then a chunk over the limit.
pub fn encrypt_chunk(plaintext: &[u8], key: &[u8]) -> (r: Result<Vec<u8>, CryptoError>)
    ensures
        r is Ok <==> key@.len() == KEY_SIZE && plaintext@.len() <= CHUNK_SIZE,
        r matches Ok(record) ==> {
            &&& is_record_of(key@, plaintext@, record@)
            &&& open_record(key@, record@) == Some(plaintext@)
        },
        r matches Err(e) ==> e == (if key@.len() != KEY_SIZE {
            CryptoError::InvalidKeyLength
        } else {
            CryptoError::ChunkTooLarge
        }),
{
    if key.len() != KEY_SIZE {
        return Err(CryptoError::InvalidKeyLength);
    }
    if plaintext.len() > CHUNK_SIZE {
        return Err(CryptoError::ChunkTooLarge);
    }
    let key32 = key_array(key);
    Ok(seal_chunk(plaintext, &key32))
}

/// Opens one record under a 32-byte key.
pub(crate) fn open_chunk(record: &[u8], key: &[u8; 32]) -> (r: Option<Vec<u8>>)
    requires
        record@.len() >= RECORD_OVERHEAD,
    ensures
        r is Some <==> open_record(key@, record@) is Some,
        r matches Some(plaintext) ==> {
            &&& open_record(key@, record@) == Some(plaintext@)
            &&& plaintext@.len() + RECORD_OVERHEAD == record@.len()
        },
{
    let nonce = nonce_array(record);
    let mut body = slice_to_vec(slice_subrange(record, NONCE_SIZE, record.len()));
    assert(body@ =~= record@.skip(NONCE_SIZE as int));
    match aead_decrypt(key, &nonce, &mut body) {
        Ok(()) => Some(body),
        Err(_) => None,
    }
}

/// Opens one record in place: splits off the leading nonce, verifies the tag
/// and decrypts the rest.
///
/// On success `data` holds the plaintext; on any refusal it is unchanged. A
/// key that is not 32 bytes long is refused first, then a record too short
/// for nonce and tag, then one that does not authenticate.
pub fn decrypt_chunk(data: &mut Vec<u8>, key: &[u8]) -> (r: Result<(), CryptoError>)
    ensures
        r is Ok <==> key@.len() == KEY_SIZE && open_record(key@, old(data)@) is Some,
        r is Ok ==> open_record(key@, old(data)@) == Some(final(data)@),
        r is Ok ==> final(data)@.len() + RECORD_OVERHEAD == old(data)@.len(),
        r is Err ==> final(data)@ == old(data)@,
        r matches Err(e) ==> e == (if key@.len() != KEY_SIZE {
            CryptoError::InvalidKeyLength
        } else if old(data)@.len() < RECORD_OVERHEAD {
            CryptoError::MalformedLength
        } else {
            CryptoError::Authentication
        }),
{
    if key.len() != KEY_SIZE {
        return Err(CryptoError::InvalidKeyLength);
    }
    if data.len() < RECORD_OVERHEAD {
        return Err(CryptoError::MalformedLength);
    }
    let key32 = key_array(key);
    match open_chunk(data.as_slice(), &key32) {
        Some(plaintext) => {
            *data = plaintext;
            Ok(())
        },
        None => Err(CryptoError::Authentication),
    }
}

/// Whether an object of `n` bytes can be a sequence of records: any number of
/// full records, then at most one shorter record that still carries at least
/// one byte of plaintext.
pub open spec fn valid_object_len(n: nat) -> bool {
    n % (RECORD_SIZE as nat) == 0 || n % (RECORD_SIZE as nat) > RECORD_OVERHEAD
}

/// Number of records that `n` plaintext bytes are sealed into.
pub open spec fn record_count(n: nat) -> nat {
    (n + CHUNK_SIZE - 1) as nat / (CHUNK_SIZE as nat)
}

/// Length of the object that `n` plaintext bytes are sealed into.
pub open spec fn sealed_len(n: nat) -> nat {
    n + (RECORD_OVERHEAD as nat) * record_count(n)
}

/// Joins the plaintext of a leading part with that of the rest, where both
/// opened.
pub open spec fn join_opened(head: Option<Seq<u8>>, tail: Option<Seq<u8>>) -> Option<Seq<u8>> {
    match (head, tail) {
        (Some(h), Some(t)) => Some(h + t),
        _ => None,
    }
}

/// What an encrypted object opens to under a key: the plaintexts of its
/// records, in order. Every record but the last is [`RECORD_SIZE`] bytes long;
/// the last carries between one byte and a full chunk. The empty object opens
/// to the empty plaintext. `None` where the length fits no such sequence or a
/// record does not authenticate.
pub open spec fn open_object(key: Seq<u8>, bytes: Seq<u8>) -> Option<Seq<u8>>
    decreases bytes.len(),
{
    if bytes.len() == 0 {
        Some(Seq::empty())
    } else if bytes.len() <= RECORD_SIZE {
        if bytes.len() <= RECORD_OVERHEAD {
            None
        } else {
            open_record(key, bytes)
        }
    } else {
        join_opened(
            open_record(key, bytes.take(RECORD_SIZE as int)),
            open_object(key, bytes.skip(RECORD_SIZE as int)),
        )
    }
}

/// What the leading full records of a byte stream open to: the stream is read
/// as long as [`RECORD_SIZE`] bytes are left, and what is left over is not
/// looked at.
pub open spec fn open_full_records(key: Seq<u8>, bytes: Seq<u8>) -> Option<Seq<u8>>
    decreases bytes.len(),
{
    if bytes.len() < RECORD_SIZE {
        Some(Seq::empty())
    } else {
        join_opened(
            open_record(key, bytes.take(RECORD_SIZE as int)),
            open_full_records(key, bytes.skip(RECORD_SIZE as int)),
        )
    }
}

/// Number of bytes of a stream of `n` bytes that lie in full records.
pub open spec fn full_records_len(n: nat) -> nat {
    (n / (RECORD_SIZE as nat)) * (RECORD_SIZE as nat)
}

/// An object that opens has a valid length.
pub proof fn lemma_opened_object_has_valid_len(key: Seq<u8>, bytes: Seq<u8>)
    requires
        open_object(key, bytes) is Some,
    ensures
        valid_object_len(bytes.len()),
    decreases bytes.len(),
{
    if bytes.len() > RECORD_SIZE {
        lemma_opened_object_has_valid_len(key, bytes.skip(RECORD_SIZE as int));
    }
}

/// Objects can be joined at a record boundary: where `a` is made of full
/// records only, `a` followed by `b` opens to what `a` opens to followed by
/// what `b` opens to, and is refused where either is.
pub proof fn lemma_open_object_concat(key: Seq<u8>, a: Seq<u8>, b: Seq<u8>)
    requires
        a.len() % (RECORD_SIZE as nat) == 0,
    ensures
        open_object(key, a + b) == join_opened(open_object(key, a), open_object(key, b)),
    decreases a.len(),
{
    if a.len() == 0 {
        assert(a + b =~= b);
        match open_object(key, b) {
            Some(t) => {
                assert(Seq::<u8>::empty() + t =~= t);
            },
            None => {},
        }
    } else {
        let head = a.take(RECORD_SIZE as int);
        let rest = a.skip(RECORD_SIZE as int);
        assert(a.len() >= RECORD_SIZE);
        assert((a + b).take(RECORD_SIZE as int) =~= head);
        assert((a + b).skip(RECORD_SIZE as int) =~= rest + b);
        lemma_open_object_concat(key, rest, b);
        if a.len() == RECORD_SIZE {
            assert(head =~= a);
            assert(rest.len() == 0);
            if b.len() == 0 {
                assert(a + b =~= a);
                match open_object(key, a) {
                    Some(h) => {
                        assert(h + Seq::<u8>::empty() =~= h);
                    },
                    None => {},
                }
            } else {
                match open_record(key, head) {
                    Some(h) => {
                        match open_object(key, b) {
                            Some(t) => {
                                assert(Seq::<u8>::empty() + t =~= t);
                            },
                            None => {},
                        }
                    },
                    None => {},
                }
            }
        } else {
            match (open_record(key, head), open_object(key, rest), open_object(key, b)) {
                (Some(h), Some(m), Some(t)) => {
                    assert(h + (m + t) =~= (h + m) + t);
                },
                _ => {},
            }
        }
    }
}

/// A stream can be opened as it arrives: an object opens to what its leading
/// full records open to, followed by what the bytes after them open to as an
/// object of their own.
pub proof fn lemma_open_object_by_full_records(key: Seq<u8>, bytes: Seq<u8>)
    ensures
        full_records_len(bytes.len()) <= bytes.len(),
        open_object(key, bytes) == join_opened(
            open_full_records(key, bytes),
            open_object(key, bytes.skip(full_records_len(bytes.len()) as int)),
        ),
    decreases bytes.len(),
{
    let cut = full_records_len(bytes.len());
    if bytes.len() < RECORD_SIZE {
        assert(cut == 0);
        assert(bytes.skip(0) =~= bytes);
        match open_object(key, bytes) {
            Some(t) => {
                assert(Seq::<u8>::empty() + t =~= t);
            },
            None => {},
        }
    } else {
        let head = bytes.take(RECORD_SIZE as int);
        let rest = bytes.skip(RECORD_SIZE as int);
        lemma_open_object_by_full_records(key, rest);
        let rest_cut = full_records_len(rest.len());
        assert(cut == rest_cut + RECORD_SIZE);
        assert(rest.skip(rest_cut as int) =~= bytes.skip(cut as int));
        if bytes.len() == RECORD_SIZE {
            assert(head =~= bytes);
            assert(rest.len() == 0);
            assert(bytes.skip(cut as int).len() == 0);
            match open_record(key, bytes) {
                Some(h) => {
                    assert(h + Seq::<u8>::empty() =~= h);
                },
                None => {},
            }
        } else {
            match (
                open_record(key, head),
                open_full_records(key, rest),
                open_object(key, rest.skip(rest_cut as int)),
            ) {
                (Some(h), Some(m), Some(t)) => {
                    assert(h + (m + t) =~= (h + m) + t);
                },
                _ => {},
            }
        }
    }
}

/// Length of the last chunk of `n` plaintext bytes, for `n` above zero: a
/// full chunk where `n` is a multiple of [`CHUNK_SIZE`], the remainder
/// otherwise.
pub open spec fn last_chunk_len(n: nat) -> nat {
    ((n - 1) as nat % (CHUNK_SIZE as nat)) + 1
}

/// Whether `bytes` are the sealing of `plaintext` under `key`: one record
/// for every chunk of [`CHUNK_SIZE`] bytes in order, the last chunk alone
/// being shorter where the length is no multiple, each record sealed under
/// the nonce it carries. Empty plaintext has the empty sealing.
pub open spec fn is_sealing_of(key: Seq<u8>, plaintext: Seq<u8>, bytes: Seq<u8>) -> bool
    decreases plaintext.len(),
{
    if plaintext.len() == 0 {
        bytes.len() == 0
    } else {
        let n = last_chunk_len(plaintext.len());
        let cut = bytes.len() - n - RECORD_OVERHEAD;
        &&& cut >= 0
        &&& is_record_of(key, plaintext.skip(plaintext.len() - n), bytes.skip(cut))
        &&& is_sealing_of(key, plaintext.take(plaintext.len() - n), bytes.take(cut))
    }
}

/// Seals `plaintext` chunk by chunk under a 32-byte key.
fn seal_all(plaintext: &[u8], key: &[u8; 32]) -> (out: Vec<u8>)
    ensures
        out@.len() == sealed_len(plaintext@.len()),
        is_sealing_of(key@, plaintext@, out@),
        open_object(key@, out@) == Some(plaintext@),
{
    let len = plaintext.len();
    let mut out: Vec<u8> = Vec::new();
    let mut offset: usize = 0;
    let ghost mut count: nat = 0;
    while offset < len
        invariant
            len == plaintext@.len(),
            offset <= len,
            offset < len ==> offset == count * CHUNK_SIZE,
            offset < len ==> out@.len() == count * RECORD_SIZE,
            out@.len() == sealed_len(offset as nat),
            is_sealing_of(key@, plaintext@.take(offset as int), out@),
            open_object(key@, out@) == Some(plaintext@.take(offset as int)),
        decreases len - offset,
    {
        let take = if len - offset < CHUNK_SIZE {
            len - offset
        } else {
            CHUNK_SIZE
        };
        let chunk = slice_subrange(plaintext, offset, offset + take);
        let mut record = seal_chunk(chunk, key);
        proof {
            let next = (offset + take) as int;
            assert(plaintext@.take(offset as int) + chunk@ =~= plaintext@.take(next));
            let grown = out@ + record@;
            let upto = plaintext@.take(next);
            assert(last_chunk_len(next as nat) == take) by {
                assert(((count * 1048576 + take - 1) as nat) % 1048576 == take - 1)
                    by (nonlinear_arith)
                    requires
                        0 < take <= 1048576,
                ;
            }
            assert(upto.skip(next - take) =~= chunk@);
            assert(upto.take(next - take) =~= plaintext@.take(offset as int));
            assert(grown.skip(grown.len() - take - RECORD_OVERHEAD) =~= record@);
            assert(grown.take(grown.len() - take - RECORD_OVERHEAD) =~= out@);
            assert(is_sealing_of(key@, upto, grown));
            assert(open_object(key@, record@) == Some(chunk@));
            lemma_open_object_concat(key@, out@, record@);
            assert(offset as nat == count * (CHUNK_SIZE as nat));
            assert(record_count(offset as nat) == count) by {
                assert((count * 1048576 + 1048575) as nat / 1048576 == count) by (nonlinear_arith);
            }
            assert(record_count(next as nat) == count + 1) by {
                assert(0 < take <= 1048576);
                assert((count * 1048576 + take + 1048575) as nat / 1048576 == count + 1)
                    by (nonlinear_arith)
                    requires
                        0 < take <= 1048576,
                ;
            }
            assert((count + 1) * RECORD_SIZE == count * RECORD_SIZE + RECORD_SIZE)
                by (nonlinear_arith);
            assert((count + 1) * CHUNK_SIZE == count * CHUNK_SIZE + CHUNK_SIZE)
                by (nonlinear_arith);
            assert(RECORD_OVERHEAD * (count + 1) == RECORD_OVERHEAD * count + RECORD_OVERHEAD)
                by (nonlinear_arith);
            count = count + 1;
        }
        out.append(&mut record);
        offset = offset + take;
    }
    proof {
        assert(plaintext@.take(len as int) =~= plaintext@);
    }
    out
}

/// Opens an object record by record under a 32-byte key.
fn open_all(bytes: &[u8], key: &[u8; 32]) -> (r: Result<Vec<u8>, CryptoError>)
    ensures
        r is Ok <==> open_object(key@, bytes@) is Some,
        r matches Ok(plaintext) ==> open_object(key@, bytes@) == Some(plaintext@),
        r matches Err(e) ==> e == (if valid_object_len(bytes@.len()) {
            CryptoError::Authentication
        } else {
            CryptoError::MalformedLength
        }),
{
    let len = bytes.len();
    let tail = len % RECORD_SIZE;
    if tail != 0 && tail <= RECORD_OVERHEAD {
        proof {
            if open_object(key@, bytes@) is Some {
                lemma_opened_object_has_valid_len(key@, bytes@);
            }
        }
        return Err(CryptoError::MalformedLength);
    }
    let mut out: Vec<u8> = Vec::new();
    let mut offset: usize = 0;
    proof {
        assert(bytes@.skip(0) =~= bytes@);
        match open_object(key@, bytes@) {
            Some(t) => {
                assert(out@ + t =~= t);
            },
            None => {},
        }
    }
    while len - offset > 0
        invariant
            len == bytes@.len(),
            offset <= len,
            valid_object_len(len as nat),
            offset % RECORD_SIZE == 0 || offset == len,
            open_object(key@, bytes@) == join_opened(
                Some(out@),
                open_object(key@, bytes@.skip(offset as int)),
            ),
        decreases len - offset,
    {
        let take = if len - offset < RECORD_SIZE {
            len - offset
        } else {
            RECORD_SIZE
        };
        let ghost rest = bytes@.skip(offset as int);
        let record = slice_subrange(bytes, offset, offset + take);
        assert(take > RECORD_OVERHEAD);
        proof {
            assert(record@ =~= rest.take(take as int));
            assert(bytes@.skip((offset + take) as int) =~= rest.skip(take as int));
            if rest.len() <= RECORD_SIZE {
                assert(record@ =~= rest);
                assert(rest.skip(take as int).len() == 0);
            }
        }
        match open_chunk(record, key) {
            Some(mut plaintext) => {
                proof {
                    match open_object(key@, rest.skip(take as int)) {
                        Some(t) => {
                            assert(out@ + (plaintext@ + t) =~= (out@ + plaintext@) + t);
                        },
                        None => {},
                    }
                }
                out.append(&mut plaintext);
                offset = offset + take;
            },
            None => {
                return Err(CryptoError::Authentication);
            },
        }
    }
    proof {
        assert(out@ + Seq::<u8>::empty() =~= out@);
    }
    Ok(out)
}

/// Encrypts `data` in place under the key of `password` and `salt`, and
/// returns a fresh identifier to store the result under.
///
/// On success `data` holds one record for every started chunk of
/// [`CHUNK_SIZE`] bytes, 40 bytes more than the chunk each and sealed under
/// a nonce of its own, and opens to the old contents under the same key;
/// empty data stays empty. The call fails
/// exactly where the key derivation does, and then leaves `data` alone.
pub fn encrypt(data: &mut Vec<u8>, password: &[u8], salt: &[u8]) -> (r: Result<
    String,
    CryptoError,
>)
    ensures
        r is Ok <==> kdf_accepts(password@, salt@),
        r matches Ok(id) ==> {
            &&& is_uuid_text(id@)
            &&& final(data)@.len() == sealed_len(old(data)@.len())
            &&& is_sealing_of(argon2id_key(password@, salt@), old(data)@, final(data)@)
            &&& open_object(argon2id_key(password@, salt@), final(data)@) == Some(old(data)@)
        },
        r matches Err(e) ==> e == CryptoError::KeyDerivation && final(data)@ == old(data)@,
{
    let key = match derive_key(password, salt) {
        Ok(key) => key,
        Err(e) => {
            return Err(e);
        },
    };
    let sealed = seal_all(data.as_slice(), &key);
    *data = sealed;
    Ok(fresh_uuid())
}

/// Decrypts `data` in place under the key of `password` and `salt`.
///
/// On success `data` holds the plaintexts of its records in order. The call
/// fails where the key derivation does, then where the length fits no
/// sequence of records, then where a record does not authenticate; in each
/// case `data` is left alone.
pub fn decrypt(data: &mut Vec<u8>, password: &[u8], salt: &[u8]) -> (r: Result<(), CryptoError>)
    ensures
        r is Ok <==> kdf_accepts(password@, salt@) && open_object(
            argon2id_key(password@, salt@),
            old(data)@,
        ) is Some,
        r is Ok ==> open_object(argon2id_key(password@, salt@), old(data)@) == Some(
            final(data)@,
        ),
        r is Err ==> final(data)@ == old(data)@,
        r matches Err(e) ==> e == (if !kdf_accepts(password@, salt@) {
            CryptoError::KeyDerivation
        } else if !valid_object_len(old(data)@.len()) {
            CryptoError::MalformedLength
        } else {
            CryptoError::Authentication
        }),
{
    let key = match derive_key(password, salt) {
        Ok(key) => key,
        Err(e) => {
            return Err(e);
        },
    };
    match open_all(data.as_slice(), &key) {
        Ok(plaintext) => {
            *data = plaintext;
            Ok(())
        },
        Err(e) => Err(e),
    }
}

} // verus!
