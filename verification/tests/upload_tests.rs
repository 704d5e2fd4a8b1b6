use crabdrop::crypto::decrypt;
use crabdrop::crypto::CryptoError;
use crabdrop::events::ProgressEvent;
use crabdrop::metadata::get_filename;
use crabdrop::metadata::put_filename;
use crabdrop::upload::det_upload;
use crabdrop::upload::folder_next;
use crabdrop::upload::FolderNext;
use crabdrop::upload::multipart_start;
use crabdrop::upload::upload_complete;
use crabdrop::upload::part_progress;
use crabdrop::upload::remote_key_for;
use crabdrop::upload::seal_part;
use crabdrop::upload::upload_file;
use crabdrop::upload::upload_file_multipart;
use crabdrop::upload::upload_folder;
use crabdrop::upload::upload_mode;
use crabdrop::upload::upload_path;
use crabdrop::upload::LocalKind;
use crabdrop::upload::PathError;
use crabdrop::upload::PathPlan;
use crabdrop::upload::UploadError;
use crabdrop::upload::UploadMode;
use crabdrop::upload::MULTIPART_THRESHOLD;

const MIB: u64 = 1024 * 1024;

fn is_uuid_v4(text: &str) -> bool {
    let chars: Vec<char> = text.chars().collect();
    chars.len() == 36
        && chars.iter().enumerate().all(|(i, c)| {
            if i == 8 || i == 13 || i == 18 || i == 23 {
                *c == '-'
            } else {
                c.is_ascii_digit() || ('a'..='f').contains(c)
            }
        })
        && chars[14] == '4'
        && ['8', '9', 'a', 'b'].contains(&chars[19])
}

#[test]
fn threshold_is_strict() {
    assert_eq!(MULTIPART_THRESHOLD, 100 * MIB);
    assert_eq!(upload_mode(0), UploadMode::Single);
    assert_eq!(upload_mode(3), UploadMode::Single);
    assert_eq!(upload_mode(100 * MIB - 1), UploadMode::Single);
    assert_eq!(upload_mode(100 * MIB), UploadMode::Multipart);
    assert_eq!(upload_mode(100 * MIB + 1), UploadMode::Multipart);
    assert_eq!(upload_mode(u64::MAX), UploadMode::Multipart);
}

#[test]
fn remote_keys() {
    assert_eq!(remote_key_for("docs/hello.txt", "ID", false), "docs/hello.txt");
    assert_eq!(remote_key_for("docs/hello.txt", "ID", true), "docs/ID");
    assert_eq!(remote_key_for("a/b/hello.txt", "ID", true), "a/b/ID");
    assert_eq!(remote_key_for("hello.txt", "ID", true), "ID");
    assert_eq!(remote_key_for("hello.txt", "ID", false), "hello.txt");
    assert_eq!(remote_key_for("/hello.txt", "ID", true), "/ID");
}

#[test]
fn plaintext_upload_goes_up_as_it_is() {
    let upload = upload_file("docs/hello.txt", b"hi\n".to_vec(), false, None).unwrap();
    assert_eq!(upload.remote_key, "docs/hello.txt");
    assert_eq!(upload.body, b"hi\n".to_vec());
    assert_eq!(upload.body.len(), 3);
    assert!(upload.entry.is_none());
    let upload = upload_file("x", Vec::new(), false, Some(b"pw")).unwrap();
    assert_eq!(upload.remote_key, "x");
    assert!(upload.body.is_empty());
}

#[test]
fn encrypted_upload_hides_name_and_content() {
    let upload = upload_file("docs/hello.txt", b"hi\n".to_vec(), true, Some(b"pw")).unwrap();
    let entry = upload.entry.unwrap();
    assert!(is_uuid_v4(&entry.id));
    assert_eq!(entry.filename, "hello.txt");
    assert_eq!(upload.remote_key, format!("docs/{}", entry.id));
    assert_eq!(upload.body.len(), 24 + 3 + 16);
    let mut body = upload.body.clone();
    decrypt(&mut body, b"pw", b"hello.txt").unwrap();
    assert_eq!(body, b"hi\n".to_vec());
    let index = put_filename(b"{}", &entry.id, &entry.filename).unwrap();
    assert_eq!(index, format!("{{\"{}\":\"hello.txt\"}}", entry.id).into_bytes());
    assert_eq!(get_filename(&index, &entry.id), Ok("hello.txt".to_string()));
}

#[test]
fn encrypted_upload_without_folder() {
    let upload = upload_file("hello.txt", b"hi\n".to_vec(), true, Some(b"pw")).unwrap();
    let entry = upload.entry.unwrap();
    assert_eq!(upload.remote_key, entry.id);
}

#[test]
fn encrypted_upload_of_empty_file() {
    let upload = upload_file("docs/empty.bin", Vec::new(), true, Some(b"pw")).unwrap();
    assert!(upload.body.is_empty());
    let entry = upload.entry.unwrap();
    assert_eq!(entry.filename, "empty.bin");
    assert!(is_uuid_v4(&entry.id));
}

#[test]
fn encrypted_uploads_get_fresh_identifiers() {
    let a = upload_file("docs/hello.txt", b"hi\n".to_vec(), true, Some(b"pw")).unwrap();
    let b = upload_file("docs/hello.txt", b"hi\n".to_vec(), true, Some(b"pw")).unwrap();
    assert_ne!(a.remote_key, b.remote_key);
}

#[test]
fn encrypted_upload_refusals() {
    assert_eq!(
        upload_file("docs/hello.txt", b"x".to_vec(), true, None).err(),
        Some(UploadError::NoPassword)
    );
    assert_eq!(
        upload_file("docs/", b"x".to_vec(), true, Some(b"pw")).err(),
        Some(UploadError::EmptyName)
    );
    assert_eq!(upload_file("", b"x".to_vec(), true, Some(b"pw")).err(), Some(UploadError::EmptyName));
    assert_eq!(
        upload_file("docs/a.txt", b"x".to_vec(), true, Some(b"pw")).err(),
        Some(UploadError::Crypto(CryptoError::KeyDerivation))
    );
    assert_eq!(upload_file("docs/", b"x".to_vec(), true, None).err(), Some(UploadError::NoPassword));
}

#[test]
fn multipart_target_plain() {
    let target = upload_file_multipart("docs/big.bin", false, None).unwrap();
    assert_eq!(target.remote_key, "docs/big.bin");
    assert!(target.entry.is_none());
}

#[test]
fn multipart_target_encrypted() {
    let target = upload_file_multipart("docs/big-file.bin", true, Some(b"pw")).unwrap();
    let entry = target.entry.unwrap();
    assert!(is_uuid_v4(&entry.id));
    assert_eq!(entry.filename, "big-file.bin");
    assert_eq!(target.remote_key, format!("docs/{}", entry.id));
    let target = upload_file_multipart("big-file.bin", true, Some(b"pw")).unwrap();
    assert_eq!(target.remote_key, target.entry.unwrap().id);
}

#[test]
fn multipart_target_refusals() {
    assert_eq!(
        upload_file_multipart("docs/big-file.bin", true, None).err(),
        Some(UploadError::NoPassword)
    );
    assert_eq!(
        upload_file_multipart("docs/", true, Some(b"pw")).err(),
        Some(UploadError::EmptyName)
    );
    assert_eq!(
        upload_file_multipart("docs/big.bin", true, Some(b"pw")).err(),
        Some(UploadError::Crypto(CryptoError::KeyDerivation))
    );
}

#[test]
fn sealed_part_opens_to_the_part() {
    let part = vec![42u8; 1024 * 1024 + 9];
    let body = seal_part(part.clone(), "docs/big-file.bin", b"pw").unwrap();
    assert_eq!(body.len(), part.len() + 2 * 40);
    let mut opened = body;
    decrypt(&mut opened, b"pw", b"big-file.bin").unwrap();
    assert_eq!(opened, part);
    assert_eq!(
        seal_part(vec![1], "docs/a.txt", b"pw").err(),
        Some(UploadError::Crypto(CryptoError::KeyDerivation))
    );
}

#[test]
fn sealed_parts_of_full_records_join_into_one_object() {
    let first = vec![1u8; 2 * 1024 * 1024];
    let second = vec![2u8; 1024 * 1024 + 17];
    let mut object = seal_part(first.clone(), "docs/big-file.bin", b"pw").unwrap();
    object.extend(seal_part(second.clone(), "docs/big-file.bin", b"pw").unwrap());
    decrypt(&mut object, b"pw", b"big-file.bin").unwrap();
    let mut whole = first;
    whole.extend(second);
    assert_eq!(object, whole);
}

#[test]
fn single_file_plan_with_events() {
    let plan = det_upload(3, "hello.txt", "up-1", true);
    assert_eq!(plan.mode, UploadMode::Single);
    match plan.start.unwrap() {
        ProgressEvent::UploadStart {
            upload_id,
            filename,
            multipart,
            is_folder,
            total_files,
            total_parts,
        } => {
            assert_eq!(upload_id, "up-1");
            assert_eq!(filename, "hello.txt");
            assert!(!multipart);
            assert!(!is_folder);
            assert_eq!(total_files, None);
            assert_eq!(total_parts, None);
        }
        other => panic!("unexpected event {:?}", other),
    }
    match plan.complete.unwrap() {
        ProgressEvent::UploadComplete { upload_id } => assert_eq!(upload_id, "up-1"),
        other => panic!("unexpected event {:?}", other),
    }
}

#[test]
fn multipart_plan_with_events() {
    let plan = det_upload(150 * MIB, "big.bin", "up-2", true);
    assert_eq!(plan.mode, UploadMode::Multipart);
    match plan.start.unwrap() {
        ProgressEvent::UploadStart { multipart, is_folder, total_parts, total_files, .. } => {
            assert!(multipart);
            assert!(!is_folder);
            assert_eq!(total_parts, Some(3));
            assert_eq!(total_files, None);
        }
        other => panic!("unexpected event {:?}", other),
    }
    assert!(plan.complete.is_some());
    let plan = det_upload(100 * MIB, "big.bin", "up-2", true);
    assert_eq!(plan.mode, UploadMode::Multipart);
    match plan.start.unwrap() {
        ProgressEvent::UploadStart { total_parts, .. } => assert_eq!(total_parts, Some(2)),
        other => panic!("unexpected event {:?}", other),
    }
}

#[test]
fn plans_without_events() {
    let plan = det_upload(3, "hello.txt", "up-1", false);
    assert_eq!(plan.mode, UploadMode::Single);
    assert!(plan.start.is_none() && plan.complete.is_none());
    let plan = det_upload(200 * MIB, "hello.txt", "up-1", false);
    assert_eq!(plan.mode, UploadMode::Multipart);
    assert!(plan.start.is_none() && plan.complete.is_none());
}

#[test]
fn part_progress_event() {
    let event = part_progress("up-2", "big.bin", 2, 3);
    assert_eq!(event.topic(), "upload_progress");
    match event {
        ProgressEvent::UploadProgress { upload_id, filename, part, total_parts } => {
            assert_eq!(upload_id, "up-2");
            assert_eq!(filename, "big.bin");
            assert_eq!(part, 2);
            assert_eq!(total_parts, 3);
        }
        other => panic!("unexpected event {:?}", other),
    }
}

#[test]
fn folder_markers() {
    assert_eq!(upload_folder("docs"), "docs/");
    assert_eq!(upload_folder("docs/"), "docs/");
    assert_eq!(upload_folder("a/b"), "a/b/");
    assert_eq!(upload_folder(""), "/");
}

#[test]
fn folder_upload_of_two_files() {
    let files = vec!["a.txt".to_string(), "sub\\b.txt".to_string()];
    match upload_path(LocalKind::Directory, "photos", "backup", "up-3", &files).unwrap() {
        PathPlan::Folder { start, steps, complete } => {
            assert_eq!(start.topic(), "upload_start");
            match start {
                ProgressEvent::UploadStart {
                    upload_id,
                    filename,
                    multipart,
                    is_folder,
                    total_files,
                    total_parts,
                } => {
                    assert_eq!(upload_id, "up-3");
                    assert_eq!(filename, "photos");
                    assert!(!multipart);
                    assert!(is_folder);
                    assert_eq!(total_files, Some(2));
                    assert_eq!(total_parts, None);
                }
                other => panic!("unexpected event {:?}", other),
            }
            assert_eq!(steps.len(), 2);
            assert_eq!(steps[0].key, "backup/a.txt");
            assert_eq!(steps[1].key, "backup/sub/b.txt");
            for (i, step) in steps.iter().enumerate() {
                assert_eq!(step.progress.topic(), "folder_progress");
                match &step.progress {
                    ProgressEvent::FolderProgress { upload_id, filename, current_file, total_files } => {
                        assert_eq!(upload_id, "up-3");
                        assert_eq!(filename, &files[i]);
                        assert_eq!(*current_file, i as u64 + 1);
                        assert_eq!(*total_files, 2);
                    }
                    other => panic!("unexpected event {:?}", other),
                }
            }
            assert_eq!(complete.topic(), "upload_complete");
            match complete {
                ProgressEvent::UploadComplete { upload_id } => assert_eq!(upload_id, "up-3"),
                other => panic!("unexpected event {:?}", other),
            }
        }
        PathPlan::File { .. } => panic!("a directory was given"),
    }
}

#[test]
fn folder_upload_of_no_files() {
    match upload_path(LocalKind::Directory, "empty", "backup", "up-4", &Vec::new()).unwrap() {
        PathPlan::Folder { start, steps, .. } => {
            assert!(steps.is_empty());
            match start {
                ProgressEvent::UploadStart { total_files, .. } => assert_eq!(total_files, Some(0)),
                other => panic!("unexpected event {:?}", other),
            }
        }
        PathPlan::File { .. } => panic!("a directory was given"),
    }
}

#[test]
fn path_kinds() {
    match upload_path(LocalKind::File, "hello.txt", "docs", "up", &Vec::new()).unwrap() {
        PathPlan::File { key } => assert_eq!(key, "docs/hello.txt"),
        other => panic!("unexpected plan {:?}", other),
    }
    let refused = upload_path(LocalKind::Other, "x", "docs", "up", &Vec::new());
    assert_eq!(refused.err(), Some(PathError::NotUploadable));
    assert_eq!(PathError::NotUploadable.message(), "Unable to add file");
}

#[test]
fn upload_error_messages() {
    assert_eq!(UploadError::NoPassword.message(), "No password");
    assert!(!UploadError::EmptyName.message().is_empty());
    assert!(!UploadError::Crypto(CryptoError::KeyDerivation).message().is_empty());
}

#[test]
fn single_plaintext_file_sent_to_a_prefix() {
    let key = match upload_path(LocalKind::File, "hello.txt", "docs", "up", &Vec::new()).unwrap() {
        PathPlan::File { key } => key,
        other => panic!("unexpected plan {:?}", other),
    };
    let upload = upload_file(&key, b"hi\n".to_vec(), false, None).unwrap();
    assert_eq!(upload.remote_key, "docs/hello.txt");
    assert_eq!(upload.body, b"hi\n".to_vec());
    assert!(upload.entry.is_none());
}

#[test]
fn single_encrypted_file_sent_to_a_prefix() {
    let key = match upload_path(LocalKind::File, "hello.txt", "docs", "up", &Vec::new()).unwrap() {
        PathPlan::File { key } => key,
        other => panic!("unexpected plan {:?}", other),
    };
    let upload = upload_file(&key, b"hi\n".to_vec(), true, Some(b"pw")).unwrap();
    let entry = upload.entry.unwrap();
    assert!(is_uuid_v4(&entry.id));
    assert_eq!(upload.remote_key, format!("docs/{}", entry.id));
    assert_eq!(upload.body.len(), 43);
    assert!(!upload.remote_key.contains("hello.txt"));
    assert_eq!(entry.filename, "hello.txt");
}

#[test]
fn start_event_of_an_upload_in_parts_of_any_size() {
    match multipart_start("up-5", "small.bin", 3) {
        ProgressEvent::UploadStart { upload_id, filename, multipart, is_folder, total_files, total_parts } => {
            assert_eq!(upload_id, "up-5");
            assert_eq!(filename, "small.bin");
            assert!(multipart);
            assert!(!is_folder);
            assert_eq!(total_files, None);
            assert_eq!(total_parts, Some(1));
        }
        other => panic!("unexpected event {:?}", other),
    }
    match multipart_start("up-5", "big.bin", 150 * MIB) {
        ProgressEvent::UploadStart { total_parts, .. } => assert_eq!(total_parts, Some(3)),
        other => panic!("unexpected event {:?}", other),
    }
    match upload_complete("up-5") {
        ProgressEvent::UploadComplete { upload_id } => assert_eq!(upload_id, "up-5"),
        other => panic!("unexpected event {:?}", other),
    }
}

#[test]
fn folder_upload_stops_at_the_first_failed_file() {
    assert_eq!(folder_next(0, 2, false), FolderNext::Upload(0));
    assert_eq!(folder_next(1, 2, false), FolderNext::Upload(1));
    assert_eq!(folder_next(2, 2, false), FolderNext::Complete);
    assert_eq!(folder_next(1, 2, true), FolderNext::Stop);
    assert_eq!(folder_next(2, 2, true), FolderNext::Stop);
    assert_eq!(folder_next(0, 0, false), FolderNext::Complete);
}
