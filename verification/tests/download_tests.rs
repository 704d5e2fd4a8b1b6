use crabdrop::crypto::encrypt;
use crabdrop::crypto::CryptoError;
use crabdrop::download::decimal_text;
use crabdrop::download::download_file;
use crabdrop::download::expected_bytes;
use crabdrop::download::get_unique_path;
use crabdrop::download::numbered_name_of;
use crabdrop::download::temp_name;
use crabdrop::download::DownloadError;
use crabdrop::download::DownloadProgress;
use crabdrop::download::READ_BUFFER_SIZE;
use crabdrop::download::TEMP_SUFFIX;
use crabdrop::events::ProgressEvent;
use crabdrop::metadata::MetadataError;

const ID_A: &str = "3f2b8c1e-7a4d-4e9b-8c6f-0123456789ab";

fn names(list: &[&str]) -> Vec<String> {
    list.iter().map(|s| s.to_string()).collect()
}

#[test]
fn decimal_digits() {
    assert_eq!(decimal_text(0), "0");
    assert_eq!(decimal_text(7), "7");
    assert_eq!(decimal_text(10), "10");
    assert_eq!(decimal_text(1234567890), "1234567890");
    assert_eq!(decimal_text(u64::MAX), "18446744073709551615");
}

#[test]
fn numbered_names() {
    assert_eq!(numbered_name_of("a.txt", 0), "a.txt");
    assert_eq!(numbered_name_of("a.txt", 1), "a (1).txt");
    assert_eq!(numbered_name_of("a.txt", 12), "a (12).txt");
    assert_eq!(numbered_name_of("archive.tar.gz", 2), "archive.tar (2).gz");
    assert_eq!(numbered_name_of("README", 1), "README (1)");
    assert_eq!(numbered_name_of(".bashrc", 1), ".bashrc (1)");
    assert_eq!(numbered_name_of(".config.toml", 3), ".config (3).toml");
    assert_eq!(numbered_name_of("a.", 1), "a (1).");
    assert_eq!(numbered_name_of("..", 1), ".. (1)");
    assert_eq!(numbered_name_of(".", 1), ". (1)");
    assert_eq!(numbered_name_of("", 1), " (1)");
    assert_eq!(numbered_name_of("\u{e9}t\u{e9}.txt", 1), "\u{e9}t\u{e9} (1).txt");
}

#[test]
fn free_name_is_kept() {
    assert_eq!(get_unique_path(&Vec::new(), "a.txt"), "a.txt");
    assert_eq!(get_unique_path(&names(&["b.txt", "a (1).txt"]), "a.txt"), "a.txt");
}

#[test]
fn taken_name_gets_the_smallest_free_number() {
    assert_eq!(get_unique_path(&names(&["hello.txt"]), "hello.txt"), "hello (1).txt");
    assert_eq!(get_unique_path(&names(&["a.txt", "a (1).txt"]), "a.txt"), "a (2).txt");
    assert_eq!(get_unique_path(&names(&["a (1).txt", "a.txt", "a (3).txt"]), "a.txt"), "a (2).txt");
    assert_eq!(get_unique_path(&names(&["notes", "notes (1)"]), "notes"), "notes (2)");
    assert_eq!(get_unique_path(&names(&["a.txt", "a.txt", "a.txt"]), "a.txt"), "a (1).txt");
}

#[test]
fn many_taken_names() {
    let mut taken = vec!["a.txt".to_string()];
    for k in 1..=25 {
        taken.push(format!("a ({}).txt", k));
    }
    assert_eq!(get_unique_path(&taken, "a.txt"), "a (26).txt");
}

#[test]
fn temporary_name() {
    assert_eq!(TEMP_SUFFIX, ".crabdroptemp");
    assert_eq!(READ_BUFFER_SIZE, 1024 * 1024);
    assert_eq!(temp_name("hello (1).txt"), "hello (1).txt.crabdroptemp");
    assert_eq!(temp_name("README"), "README.crabdroptemp");
    assert_eq!(temp_name(".bashrc"), ".bashrc.crabdroptemp");
}

#[test]
fn plain_download_needs_no_stream() {
    assert!(matches!(download_file(b"not even json", "docs/hello.txt", false, b"pw"), Ok(None)));
}

#[test]
fn encrypted_download_round_trip() {
    let mut sealed = b"hi\n".to_vec();
    encrypt(&mut sealed, b"pw", b"hello.txt").unwrap();
    let metadata = format!("{{\"{}\":\"hello.txt\"}}", ID_A);
    let key = format!("docs/{}", ID_A);
    let mut stream = download_file(metadata.as_bytes(), &key, true, b"pw").unwrap().unwrap();
    let mut plain = stream.push(&sealed).unwrap();
    plain.extend(stream.finish().unwrap());
    assert_eq!(plain, b"hi\n".to_vec());
    let taken = vec!["hello.txt".to_string()];
    assert_eq!(get_unique_path(&taken, "hello.txt"), "hello (1).txt");
}

#[test]
fn encrypted_download_with_wrong_passphrase_fails_at_the_end() {
    let mut sealed = b"hi\n".to_vec();
    encrypt(&mut sealed, b"pw", b"hello.txt").unwrap();
    let metadata = format!("{{\"{}\":\"hello.txt\"}}", ID_A);
    let mut stream = download_file(metadata.as_bytes(), ID_A, true, b"nope").unwrap().unwrap();
    assert_eq!(stream.push(&sealed), Ok(Vec::new()));
    assert_eq!(stream.finish(), Err(CryptoError::Authentication));
}

#[test]
fn encrypted_download_refusals() {
    let metadata = format!("{{\"{}\":\"hello.txt\",\"short\":\"a.txt\"}}", ID_A);
    assert_eq!(
        download_file(b"oops", ID_A, true, b"pw").err(),
        Some(DownloadError::Metadata(MetadataError::Parse))
    );
    assert_eq!(
        download_file(metadata.as_bytes(), "docs/unknown", true, b"pw").err(),
        Some(DownloadError::Metadata(MetadataError::Missing))
    );
    assert_eq!(
        download_file(metadata.as_bytes(), "docs/short", true, b"pw").err(),
        Some(DownloadError::Crypto(CryptoError::KeyDerivation))
    );
    assert!(!DownloadError::Metadata(MetadataError::Missing).message().is_empty());
    assert!(!DownloadError::Crypto(CryptoError::KeyDerivation).message().is_empty());
}

#[test]
fn expected_number_of_bytes() {
    assert_eq!(expected_bytes(10, Some(43)), 43);
    assert_eq!(expected_bytes(10, None), 10);
    assert_eq!(expected_bytes(0, Some(0)), 0);
}

#[test]
fn download_events() {
    let mut progress = DownloadProgress::new("hello.txt", 43);
    let start = progress.start();
    assert_eq!(start.topic(), "download_start");
    match start {
        ProgressEvent::DownloadStart { filename, total_bytes } => {
            assert_eq!(filename, "hello.txt");
            assert_eq!(total_bytes, 43);
        }
        other => panic!("unexpected event {:?}", other),
    }
    match progress.received(40) {
        ProgressEvent::DownloadProgress { filename, downloaded_bytes, total_bytes } => {
            assert_eq!(filename, "hello.txt");
            assert_eq!(downloaded_bytes, 40);
            assert_eq!(total_bytes, 43);
        }
        other => panic!("unexpected event {:?}", other),
    }
    let event = progress.received(3);
    assert_eq!(event.topic(), "download_progress");
    match event {
        ProgressEvent::DownloadProgress { downloaded_bytes, .. } => assert_eq!(downloaded_bytes, 43),
        other => panic!("unexpected event {:?}", other),
    }
    let done = progress.complete();
    assert_eq!(done.topic(), "download_complete");
    match done {
        ProgressEvent::DownloadComplete { filename, total_bytes } => {
            assert_eq!(filename, "hello.txt");
            assert_eq!(total_bytes, 43);
        }
        other => panic!("unexpected event {:?}", other),
    }
}

#[test]
fn download_count_stops_at_the_top() {
    let mut progress = DownloadProgress::new("x", 0);
    progress.received(usize::MAX);
    progress.received(usize::MAX);
    match progress.received(usize::MAX) {
        ProgressEvent::DownloadProgress { downloaded_bytes, .. } => {
            assert!(downloaded_bytes >= usize::MAX as u64)
        }
        other => panic!("unexpected event {:?}", other),
    }
}
