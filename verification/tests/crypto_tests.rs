use crabdrop::crypto::decrypt;
use crabdrop::crypto::decrypt_chunk;
use crabdrop::crypto::derive_key;
use crabdrop::crypto::encrypt;
use crabdrop::crypto::encrypt_chunk;
use crabdrop::crypto::CryptoError;
use crabdrop::crypto::CHUNK_SIZE;
use crabdrop::crypto::RECORD_OVERHEAD;
use crabdrop::crypto::RECORD_SIZE;

fn sample(len: usize) -> Vec<u8> {
    let mut out = Vec::with_capacity(len);
    let mut x: u32 = 12345;
    for _ in 0..len {
        x = x.wrapping_mul(1103515245).wrapping_add(12345);
        out.push((x >> 16) as u8);
    }
    out
}

#[test]
fn record_constants_agree() {
    assert_eq!(CHUNK_SIZE, 1024 * 1024);
    assert_eq!(RECORD_OVERHEAD, 24 + 16);
    assert_eq!(RECORD_SIZE, 24 + 1024 * 1024 + 16);
}

#[test]
fn derive_key_is_a_function_of_passphrase_and_salt() {
    let a = derive_key(b"pw", b"hello.txt").unwrap();
    let b = derive_key(b"pw", b"hello.txt").unwrap();
    let c = derive_key(b"pw", b"other-file.txt").unwrap();
    let d = derive_key(b"pw2", b"hello.txt").unwrap();
    assert_eq!(a, b);
    assert_ne!(a, c);
    assert_ne!(a, d);
    assert_ne!(a, [0u8; 32]);
}

#[test]
fn derive_key_refuses_short_salt() {
    assert_eq!(derive_key(b"pw", b"a.txt"), Err(CryptoError::KeyDerivation));
    assert_eq!(derive_key(b"pw", b"1234567"), Err(CryptoError::KeyDerivation));
    assert!(derive_key(b"pw", b"12345678").is_ok());
    assert!(derive_key(b"", b"12345678").is_ok());
}

#[test]
fn chunk_round_trip() {
    let key = derive_key(b"pw", b"hello.txt").unwrap();
    let record = encrypt_chunk(b"hi\n", &key).unwrap();
    assert_eq!(record.len(), 24 + 3 + 16);
    let mut data = record.clone();
    assert_eq!(decrypt_chunk(&mut data, &key), Ok(()));
    assert_eq!(data, b"hi\n".to_vec());
}

#[test]
fn empty_chunk_round_trip() {
    let key = [7u8; 32];
    let record = encrypt_chunk(b"", &key).unwrap();
    assert_eq!(record.len(), 40);
    let mut data = record;
    assert_eq!(decrypt_chunk(&mut data, &key), Ok(()));
    assert!(data.is_empty());
}

#[test]
fn chunks_use_fresh_nonces() {
    let key = [7u8; 32];
    let a = encrypt_chunk(b"same plaintext", &key).unwrap();
    let b = encrypt_chunk(b"same plaintext", &key).unwrap();
    assert_ne!(a[..24], b[..24]);
    assert_ne!(a, b);
}

#[test]
fn chunk_of_exactly_one_mib_is_one_full_record() {
    let key = [1u8; 32];
    let plain = sample(CHUNK_SIZE);
    let record = encrypt_chunk(&plain, &key).unwrap();
    assert_eq!(record.len(), RECORD_SIZE);
    let mut data = record;
    decrypt_chunk(&mut data, &key).unwrap();
    assert_eq!(data, plain);
}

#[test]
fn chunk_over_one_mib_is_refused() {
    let key = [1u8; 32];
    let plain = vec![0u8; CHUNK_SIZE + 1];
    assert_eq!(encrypt_chunk(&plain, &key), Err(CryptoError::ChunkTooLarge));
}

#[test]
fn key_of_wrong_length_is_refused() {
    assert_eq!(encrypt_chunk(b"abc", &[0u8; 31]), Err(CryptoError::InvalidKeyLength));
    let mut data = vec![0u8; 64];
    assert_eq!(decrypt_chunk(&mut data, &[0u8; 33]), Err(CryptoError::InvalidKeyLength));
    assert_eq!(data, vec![0u8; 64]);
}

#[test]
fn short_record_is_malformed() {
    let key = [1u8; 32];
    let mut data = vec![0u8; 39];
    assert_eq!(decrypt_chunk(&mut data, &key), Err(CryptoError::MalformedLength));
    assert_eq!(data.len(), 39);
    let mut none: Vec<u8> = Vec::new();
    assert_eq!(decrypt_chunk(&mut none, &key), Err(CryptoError::MalformedLength));
}

#[test]
fn wrong_key_does_not_authenticate() {
    let key = [1u8; 32];
    let other = [2u8; 32];
    let record = encrypt_chunk(b"secret", &key).unwrap();
    let mut data = record.clone();
    assert_eq!(decrypt_chunk(&mut data, &other), Err(CryptoError::Authentication));
    assert_eq!(data, record);
}

#[test]
fn tampering_does_not_authenticate() {
    let key = [1u8; 32];
    let record = encrypt_chunk(b"secret", &key).unwrap();
    for position in [0usize, 23, 24, 29, 30, 45] {
        let mut data = record.clone();
        data[position] ^= 1;
        let tampered = data.clone();
        assert_eq!(decrypt_chunk(&mut data, &key), Err(CryptoError::Authentication));
        assert_eq!(data, tampered);
    }
}

#[test]
fn encrypt_small_file() {
    let mut data = b"hi\n".to_vec();
    let id = encrypt(&mut data, b"pw", b"hello.txt").unwrap();
    assert_eq!(data.len(), 43);
    assert_eq!(id.len(), 36);
    assert_ne!(&data[24..27], b"hi\n");
    assert_eq!(decrypt(&mut data, b"pw", b"hello.txt"), Ok(()));
    assert_eq!(data, b"hi\n".to_vec());
}

#[test]
fn encrypt_empty_file_stays_empty() {
    let mut data: Vec<u8> = Vec::new();
    encrypt(&mut data, b"pw", b"hello.txt").unwrap();
    assert!(data.is_empty());
    assert_eq!(decrypt(&mut data, b"pw", b"hello.txt"), Ok(()));
    assert!(data.is_empty());
}

#[test]
fn file_of_exactly_one_mib_yields_one_record() {
    let plain = sample(CHUNK_SIZE);
    let mut data = plain.clone();
    encrypt(&mut data, b"pw", b"hello.txt").unwrap();
    assert_eq!(data.len(), RECORD_SIZE);
    decrypt(&mut data, b"pw", b"hello.txt").unwrap();
    assert_eq!(data, plain);
}

#[test]
fn file_over_one_mib_yields_a_short_last_record() {
    let plain = sample(2 * CHUNK_SIZE + 5);
    let mut data = plain.clone();
    encrypt(&mut data, b"pw", b"hello.txt").unwrap();
    assert_eq!(data.len(), 2 * RECORD_SIZE + 24 + 5 + 16);
    decrypt(&mut data, b"pw", b"hello.txt").unwrap();
    assert_eq!(data, plain);
}

#[test]
fn encrypt_fails_with_short_salt_and_leaves_data() {
    let mut data = b"hi\n".to_vec();
    assert_eq!(encrypt(&mut data, b"pw", b"a.txt"), Err(CryptoError::KeyDerivation));
    assert_eq!(data, b"hi\n".to_vec());
}

#[test]
fn decrypt_refuses_malformed_lengths() {
    for len in [1usize, 24, 39, 40, RECORD_SIZE + 1, RECORD_SIZE + 40] {
        let mut data = vec![0u8; len];
        assert_eq!(decrypt(&mut data, b"pw", b"hello.txt"), Err(CryptoError::MalformedLength));
        assert_eq!(data.len(), len);
    }
}

#[test]
fn decrypt_refuses_wrong_passphrase() {
    let mut data = b"hi\n".to_vec();
    encrypt(&mut data, b"pw", b"hello.txt").unwrap();
    let sealed = data.clone();
    assert_eq!(decrypt(&mut data, b"other", b"hello.txt"), Err(CryptoError::Authentication));
    assert_eq!(data, sealed);
    assert_eq!(decrypt(&mut data, b"pw", b"other-name.txt"), Err(CryptoError::Authentication));
    assert_eq!(decrypt(&mut data, b"pw", b"short"), Err(CryptoError::KeyDerivation));
}

#[test]
fn decrypt_refuses_reordered_records_only_by_content() {
    let plain = sample(CHUNK_SIZE + 10);
    let mut data = plain.clone();
    encrypt(&mut data, b"pw", b"hello.txt").unwrap();
    let mut truncated = data[..RECORD_SIZE + 30].to_vec();
    assert_eq!(decrypt(&mut truncated, b"pw", b"hello.txt"), Err(CryptoError::MalformedLength));
    let mut cut = data[..data.len() - 1].to_vec();
    assert_eq!(decrypt(&mut cut, b"pw", b"hello.txt"), Err(CryptoError::Authentication));
}

#[test]
fn error_messages_are_not_empty() {
    for e in [
        CryptoError::KeyDerivation,
        CryptoError::InvalidKeyLength,
        CryptoError::ChunkTooLarge,
        CryptoError::MalformedLength,
        CryptoError::Authentication,
    ] {
        assert!(!e.message().is_empty());
    }
}
