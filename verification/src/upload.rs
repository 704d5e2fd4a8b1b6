//! Uploads: how a file goes up, under which key, and with what body.
//!
//! A file under 100 MiB goes up in one request, a larger one in parts. An
//! unencrypted file is stored under its target key as it is. An encrypted
//! file is sealed under the key of the passphrase and the file's own name,
//! and stored beside its target under a fresh identifier, so that the store
//! sees neither content nor name; the metadata index records which
//! identifier holds which name.

use vstd::prelude::*;
use vstd::string::StringExecFns;
use vstd::string::StringSliceAdditionalSpecFns;
use crate::crypto::CryptoError;
use crate::crypto::argon2id_key;
use crate::crypto::encrypt;
use crate::crypto::is_sealing_of;
use crate::crypto::kdf_accepts;
use crate::crypto::open_object;
use crate::crypto::sealed_len;
use crate::events::EventView;
use crate::events::ProgressEvent;
use crate::ident::fresh_uuid;
use crate::multipart::part_count;
use crate::multipart::total_parts;
use crate::ident::is_uuid_text;
use crate::text::ends_with_slash;
use crate::text::forward_slashes;
use crate::text::has_slash;
use crate::text::join_key;
use crate::text::joined;
use crate::text::last_segment;
use crate::text::last_segment_of;
use crate::text::parent;
use crate::text::split_last;
use crate::text::with_forward_slashes;

verus! {

/// Size from which a file goes up in parts: 100 MiB.
pub const MULTIPART_THRESHOLD: u64 = 104857600;

/// How a file goes up.
#[derive(Clone, Copy, Debug, PartialEq, Eq, Structural)]
pub enum UploadMode {
    /// In one request.
    Single,
    /// In parts.
    Multipart,
}

/// How a file of `size` bytes goes up: in one request below
/// [`MULTIPART_THRESHOLD`], in parts from there on.
pub fn upload_mode(size: u64) -> (mode: UploadMode)
    ensures
        mode == (if size < MULTIPART_THRESHOLD {
            UploadMode::Single
        } else {
            UploadMode::Multipart
        }),
{
    if size < MULTIPART_THRESHOLD {
        UploadMode::Single
    } else {
        UploadMode::Multipart
    }
}

/// The key under which a file is stored. Unencrypted, it is the target key.
/// Encrypted, the last segment of the target gives way to the identifier:
/// the identifier alone where the target has no folder.
pub open spec fn remote_key(target: Seq<char>, id: Seq<char>, encrypted: bool) -> Seq<char> {
    if !encrypted {
        target
    } else if has_slash(target) {
        joined(parent(target), id)
    } else {
        id
    }
}

/// The key under which a file is stored.
pub fn remote_key_for(target_key: &str, id: &str, encrypted: bool) -> (key: String)
    ensures
        key@ == remote_key(target_key@, id@, encrypted),
{
    if !encrypted {
        return String::from_str(target_key);
    }
    match split_last(target_key) {
        Some((folder, _)) => join_key(folder.as_str(), id),
        None => String::from_str(id),
    }
}

/// The salt of a file's key: the UTF-8 bytes of its own name, the last
/// segment of its target key.
pub open spec fn name_salt(target: Seq<char>) -> Seq<u8> {
    vstd::utf8::encode_utf8(last_segment(target))
}

/// Why an upload could not be prepared.
#[derive(Clone, Copy, Debug, PartialEq, Eq, Structural)]
pub enum UploadError {
    /// Encryption was asked for without a passphrase.
    NoPassword,
    /// The target key names no file: its last segment is empty.
    EmptyName,
    /// The body could not be sealed.
    Crypto(CryptoError),
}

impl UploadError {
    /// A short description for display.
    pub fn message(&self) -> (text: &'static str)
        ensures
            text@.len() > 0,
    {
        match self {
            UploadError::NoPassword => {
                proof {
                    reveal_strlit("No password");
                }
                "No password"
            },
            UploadError::EmptyName => {
                proof {
                    reveal_strlit("Invalid path");
                }
                "Invalid path"
            },
            UploadError::Crypto(e) => e.message(),
        }
    }
}

/// A pair for the metadata index: the identifier an object is stored under,
/// and the file's own name.
#[derive(Debug)]
pub struct IndexEntry {
    /// The stored identifier.
    pub id: String,
    /// The file's own name.
    pub filename: String,
}

/// An upload ready to go: where to store, what to store, and what to record
/// in the metadata index afterwards.
#[derive(Debug)]
pub struct PreparedUpload {
    /// The key to store under.
    pub remote_key: String,
    /// The bytes to store.
    pub body: Vec<u8>,
    /// The pair to record once the object is stored; only for an encrypted
    /// upload.
    pub entry: Option<IndexEntry>,
}

/// Which error, if any, keeps an upload from being prepared.
pub open spec fn upload_refusal(
    target: Seq<char>,
    encrypted: bool,
    password: Option<Seq<u8>>,
) -> Option<UploadError> {
    if !encrypted {
        None
    } else if password is None {
        Some(UploadError::NoPassword)
    } else if last_segment(target).len() == 0 {
        Some(UploadError::EmptyName)
    } else if !kdf_accepts(password->0, name_salt(target)) {
        Some(UploadError::Crypto(CryptoError::KeyDerivation))
    } else {
        None
    }
}

/// The view of an optional passphrase.
pub open spec fn password_view(password: Option<&[u8]>) -> Option<Seq<u8>> {
    match password {
        Some(bytes) => Some(bytes@),
        None => None,
    }
}

/// Prepares the upload of `data` to `key` in one request.
///
/// Unencrypted, the data goes to `key` unchanged and nothing is recorded.
/// Encrypted, the data is sealed under the key of the passphrase and the
/// file's name, it goes beside `key` under a fresh identifier, and the pair
/// of identifier and name is to be recorded. The sealed body opens to the
/// data under that key. The call is refused without a passphrase, for a key
/// without a file name, and where the key derivation refuses passphrase or
/// name: a name under eight bytes is too short a salt.
pub fn upload_file(key: &str, data: Vec<u8>, encrypted: bool, password: Option<&[u8]>) -> (r:
    Result<PreparedUpload, UploadError>)
    ensures
        match upload_refusal(key@, encrypted, password_view(password)) {
            Some(e) => r == Err::<PreparedUpload, UploadError>(e),
            None => {
                &&& r matches Ok(upload)
                &&& if encrypted {
                    &&& upload.entry matches Some(entry)
                    &&& is_uuid_text(entry.id@)
                    &&& entry.filename@ == last_segment(key@)
                    &&& upload.remote_key@ == remote_key(key@, entry.id@, true)
                    &&& upload.body@.len() == sealed_len(data@.len())
                    &&& is_sealing_of(
                        argon2id_key(password_view(password)->0, name_salt(key@)),
                        data@,
                        upload.body@,
                    )
                    &&& open_object(
                        argon2id_key(password_view(password)->0, name_salt(key@)),
                        upload.body@,
                    ) == Some(data@)
                } else {
                    &&& upload.entry is None
                    &&& upload.remote_key@ == key@
                    &&& upload.body@ == data@
                }
            },
        },
{
    if !encrypted {
        return Ok(PreparedUpload { remote_key: String::from_str(key), body: data, entry: None });
    }
    let password = match password {
        Some(bytes) => bytes,
        None => {
            return Err(UploadError::NoPassword);
        },
    };
    let name = last_segment_of(key);
    if name.as_str().is_empty() {
        return Err(UploadError::EmptyName);
    }
    let mut body = data;
    match encrypt(&mut body, password, name.as_str().as_bytes()) {
        Ok(id) => {
            let remote_key = remote_key_for(key, id.as_str(), true);
            Ok(PreparedUpload { remote_key, body, entry: Some(IndexEntry { id, filename: name }) })
        },
        Err(e) => Err(UploadError::Crypto(e)),
    }
}

/// The key of the marker object of a folder: the key itself where it ends
/// with `/`, the key and a `/` otherwise.
pub open spec fn folder_marker(key: Seq<char>) -> Seq<char> {
    if key.len() > 0 && key.last() == '/' {
        key
    } else {
        key + seq!['/']
    }
}

/// The key of the marker object of a folder. The marker is an empty,
/// unencrypted object.
pub fn upload_folder(key: &str) -> (marker: String)
    ensures
        marker@ == folder_marker(key@),
{
    let mut marker = String::from_str(key);
    if !ends_with_slash(key) {
        proof {
            reveal_strlit("/");
            assert("/"@ =~= seq!['/']);
        }
        marker.append("/");
    }
    marker
}

/// Where an upload in parts goes, and what to record in the metadata index
/// once it is completed.
#[derive(Debug)]
pub struct MultipartTarget {
    /// The key to store under.
    pub remote_key: String,
    /// The pair to record; only for an encrypted upload.
    pub entry: Option<IndexEntry>,
}

/// Prepares the upload of a file to `key` in parts: checks that the parts
/// can be sealed, and picks the key to store under.
///
/// Unencrypted, the file goes to `key`. Encrypted, it goes beside `key`
/// under a fresh identifier, and the pair of identifier and name is to be
/// recorded. The call is refused where [`upload_file`] is.
pub fn upload_file_multipart(key: &str, encrypted: bool, password: Option<&[u8]>) -> (r: Result<
    MultipartTarget,
    UploadError,
>)
    ensures
        match upload_refusal(key@, encrypted, password_view(password)) {
            Some(e) => r == Err::<MultipartTarget, UploadError>(e),
            None => {
                &&& r matches Ok(target)
                &&& if encrypted {
                    &&& target.entry matches Some(entry)
                    &&& is_uuid_text(entry.id@)
                    &&& entry.filename@ == last_segment(key@)
                    &&& target.remote_key@ == remote_key(key@, entry.id@, true)
                } else {
                    &&& target.entry is None
                    &&& target.remote_key@ == key@
                }
            },
        },
{
    if !encrypted {
        return Ok(MultipartTarget { remote_key: String::from_str(key), entry: None });
    }
    let password = match password {
        Some(bytes) => bytes,
        None => {
            return Err(UploadError::NoPassword);
        },
    };
    let name = last_segment_of(key);
    if name.as_str().is_empty() {
        return Err(UploadError::EmptyName);
    }
    let salt_len = name.as_str().as_bytes().len();
    if password.len() > 0xFFFF_FFFF || salt_len < 8 || salt_len > 0xFFFF_FFFF {
        return Err(UploadError::Crypto(CryptoError::KeyDerivation));
    }
    let id = fresh_uuid();
    let remote_key = remote_key_for(key, id.as_str(), true);
    Ok(MultipartTarget { remote_key, entry: Some(IndexEntry { id, filename: name }) })
}

/// Seals one part of the file that goes to `key`, under the key of the
/// passphrase and the file's name.
///
/// The body opens to the part under that key. A full part is sealed into
/// full records only, so that the bodies of a file's parts, one after the
/// other, are one object that opens to the file.
pub fn seal_part(part: Vec<u8>, key: &str, password: &[u8]) -> (r: Result<Vec<u8>, UploadError>)
    ensures
        r is Ok <==> kdf_accepts(password@, name_salt(key@)),
        r matches Ok(body) ==> {
            &&& body@.len() == sealed_len(part@.len())
            &&& is_sealing_of(argon2id_key(password@, name_salt(key@)), part@, body@)
            &&& open_object(argon2id_key(password@, name_salt(key@)), body@) == Some(part@)
        },
        r matches Err(e) ==> e == UploadError::Crypto(CryptoError::KeyDerivation),
{
    let name = last_segment_of(key);
    let mut body = part;
    match encrypt(&mut body, password, name.as_str().as_bytes()) {
        Ok(_) => Ok(body),
        Err(e) => Err(UploadError::Crypto(e)),
    }
}

/// How one file goes up, and the events that frame its upload.
#[derive(Debug)]
pub struct FilePlan {
    /// Whether the file goes up in one request or in parts.
    pub mode: UploadMode,
    /// The event to send before the upload; `None` where events are off.
    pub start: Option<ProgressEvent>,
    /// The event to send after the upload; `None` where events are off.
    pub complete: Option<ProgressEvent>,
}

/// The event that starts the upload of one file of `size` bytes.
pub open spec fn file_start(upload_id: Seq<char>, filename: Seq<char>, size: u64) -> EventView {
    EventView::UploadStart {
        upload_id,
        filename,
        multipart: size >= MULTIPART_THRESHOLD,
        is_folder: false,
        total_files: None,
        total_parts: if size >= MULTIPART_THRESHOLD {
            Some(part_count(size as nat) as u64)
        } else {
            None
        },
    }
}

/// The event that starts an upload in parts of a file of `size` bytes,
/// whatever its size.
pub open spec fn parts_start(upload_id: Seq<char>, filename: Seq<char>, size: u64) -> EventView {
    EventView::UploadStart {
        upload_id,
        filename,
        multipart: true,
        is_folder: false,
        total_files: None,
        total_parts: Some(part_count(size as nat) as u64),
    }
}

/// The event that starts an upload in parts: it tells the number of parts.
pub fn multipart_start(upload_id: &str, filename: &str, size: u64) -> (event: ProgressEvent)
    ensures
        event@ == parts_start(upload_id@, filename@, size),
{
    ProgressEvent::UploadStart {
        upload_id: String::from_str(upload_id),
        filename: String::from_str(filename),
        multipart: true,
        is_folder: false,
        total_files: None,
        total_parts: Some(total_parts(size)),
    }
}

/// The event that ends an upload.
pub fn upload_complete(upload_id: &str) -> (event: ProgressEvent)
    ensures
        event@ == (EventView::UploadComplete { upload_id: upload_id@ }),
{
    ProgressEvent::UploadComplete { upload_id: String::from_str(upload_id) }
}

/// Decides how a file of `size` bytes goes up, and with which events: in
/// one request below [`MULTIPART_THRESHOLD`], in parts from there on; the
/// start event tells which, and for parts how many.
pub fn det_upload(size: u64, filename: &str, upload_id: &str, emit_event: bool) -> (plan: FilePlan)
    ensures
        plan.mode == (if size < MULTIPART_THRESHOLD {
            UploadMode::Single
        } else {
            UploadMode::Multipart
        }),
        emit_event ==> {
            &&& plan.start matches Some(start)
            &&& start@ == file_start(upload_id@, filename@, size)
            &&& plan.complete matches Some(complete)
            &&& complete@ == (EventView::UploadComplete { upload_id: upload_id@ })
        },
        !emit_event ==> plan.start is None && plan.complete is None,
{
    let mode = upload_mode(size);
    if !emit_event {
        return FilePlan { mode, start: None, complete: None };
    }
    let (multipart, parts) = match mode {
        UploadMode::Single => (false, None),
        UploadMode::Multipart => (true, Some(total_parts(size))),
    };
    let start = ProgressEvent::UploadStart {
        upload_id: String::from_str(upload_id),
        filename: String::from_str(filename),
        multipart,
        is_folder: false,
        total_files: None,
        total_parts: parts,
    };
    let complete = ProgressEvent::UploadComplete { upload_id: String::from_str(upload_id) };
    FilePlan { mode, start: Some(start), complete: Some(complete) }
}

/// The event that announces part `part` of `total` of an upload.
pub fn part_progress(upload_id: &str, filename: &str, part: u64, total: u64) -> (event:
    ProgressEvent)
    ensures
        event@ == (EventView::UploadProgress {
            upload_id: upload_id@,
            filename: filename@,
            part,
            total_parts: total,
        }),
{
    ProgressEvent::UploadProgress {
        upload_id: String::from_str(upload_id),
        filename: String::from_str(filename),
        part,
        total_parts: total,
    }
}

/// What a local path turned out to be.
#[derive(Clone, Copy, Debug, PartialEq, Eq, Structural)]
pub enum LocalKind {
    /// A regular file.
    File,
    /// A directory.
    Directory,
    /// Neither.
    Other,
}

/// One file of a folder upload: the event that announces it and the key it
/// goes to.
#[derive(Debug)]
pub struct FolderStep {
    /// The event to send before the file goes up.
    pub progress: ProgressEvent,
    /// The target key of the file.
    pub key: String,
}

/// How a local path goes up.
#[derive(Debug)]
pub enum PathPlan {
    /// One file: it goes to the key under the target prefix, with events of
    /// its own.
    File { key: String },
    /// A folder: the start event, one step for every file in the order
    /// given, each file going up without events of its own, and the event
    /// that ends the upload.
    Folder { start: ProgressEvent, steps: Vec<FolderStep>, complete: ProgressEvent },
}

/// Why a local path cannot go up.
#[derive(Clone, Copy, Debug, PartialEq, Eq, Structural)]
pub enum PathError {
    /// The path is neither a file nor a directory.
    NotUploadable,
}

impl PathError {
    /// A short description for display.
    pub fn message(&self) -> (text: &'static str)
        ensures
            text@ == "Unable to add file"@,
    {
        "Unable to add file"
    }
}

/// The key that a file of a folder goes to: the target prefix, a `/`, and
/// the file's path below the folder with `/` as separator.
pub open spec fn folder_file_key(target_prefix: Seq<char>, relative: Seq<char>) -> Seq<char> {
    joined(target_prefix, with_forward_slashes(relative))
}

/// The step for file `i` of a folder upload.
pub open spec fn folder_step_ok(
    step: FolderStep,
    upload_id: Seq<char>,
    target_prefix: Seq<char>,
    relative: Seq<char>,
    i: int,
    total: int,
) -> bool {
    &&& step.progress@ == (EventView::FolderProgress {
        upload_id,
        filename: relative,
        current_file: (i + 1) as u64,
        total_files: total as u64,
    })
    &&& step.key@ == folder_file_key(target_prefix, relative)
}

/// Plans the upload of a local path to `target_prefix`. `name` is the name
/// of the file or directory itself, the last component of the local path.
///
/// A file goes up as one file, to the target prefix, a `/` and its name.
/// For a directory, `relative_files` are the paths of its regular files
/// below it, in the order of the walk: the plan starts with `upload_start`
/// for a folder of that many files, announces every file with
/// `folder_progress`, counted from one, and ends with `upload_complete`.
/// Anything else is refused.
pub fn upload_path(
    kind: LocalKind,
    name: &str,
    target_prefix: &str,
    upload_id: &str,
    relative_files: &Vec<String>,
) -> (r: Result<PathPlan, PathError>)
    ensures
        match kind {
            LocalKind::Other => r == Err::<PathPlan, PathError>(PathError::NotUploadable),
            LocalKind::File => r matches Ok(PathPlan::File { key }) && key@ == joined(
                target_prefix@,
                name@,
            ),
            LocalKind::Directory => {
                &&& r matches Ok(PathPlan::Folder { start, steps, complete })
                &&& start@ == (EventView::UploadStart {
                    upload_id: upload_id@,
                    filename: name@,
                    multipart: false,
                    is_folder: true,
                    total_files: Some(relative_files@.len() as u64),
                    total_parts: None,
                })
                &&& steps@.len() == relative_files@.len()
                &&& forall|i: int|
                    0 <= i < steps@.len() ==> folder_step_ok(
                        #[trigger] steps@[i],
                        upload_id@,
                        target_prefix@,
                        relative_files@[i]@,
                        i,
                        relative_files@.len() as int,
                    )
                &&& complete@ == (EventView::UploadComplete { upload_id: upload_id@ })
            },
        },
{
    match kind {
        LocalKind::Other => Err(PathError::NotUploadable),
        LocalKind::File => Ok(PathPlan::File { key: join_key(target_prefix, name) }),
        LocalKind::Directory => {
            let total = relative_files.len();
            let start = ProgressEvent::UploadStart {
                upload_id: String::from_str(upload_id),
                filename: String::from_str(name),
                multipart: false,
                is_folder: true,
                total_files: Some(total as u64),
                total_parts: None,
            };
            let mut steps: Vec<FolderStep> = Vec::new();
            let mut i: usize = 0;
            while i < total
                invariant
                    total == relative_files@.len(),
                    i <= total,
                    steps@.len() == i,
                    forall|j: int|
                        0 <= j < i ==> folder_step_ok(
                            #[trigger] steps@[j],
                            upload_id@,
                            target_prefix@,
                            relative_files@[j]@,
                            j,
                            total as int,
                        ),
                decreases total - i,
            {
                let relative = relative_files[i].as_str();
                let normal = forward_slashes(relative);
                let progress = ProgressEvent::FolderProgress {
                    upload_id: String::from_str(upload_id),
                    filename: String::from_str(relative),
                    current_file: i as u64 + 1,
                    total_files: total as u64,
                };
                let key = join_key(target_prefix, normal.as_str());
                steps.push(FolderStep { progress, key });
                i += 1;
            }
            let complete = ProgressEvent::UploadComplete { upload_id: String::from_str(upload_id) };
            Ok(PathPlan::Folder { start, steps, complete })
        },
    }
}

/// What to do next in a folder upload.
#[derive(Clone, Copy, Debug, PartialEq, Eq, Structural)]
pub enum FolderNext {
    /// Send the step with this index.
    Upload(usize),
    /// Every file is up: send the event that ends the upload.
    Complete,
    /// A file failed: stop. The files before it stay uploaded, the rest is
    /// not sent, and no end event is sent.
    Stop,
}

/// Decides how a folder upload goes on once `done` of its `total` files are
/// up: it stops at the first file that failed, sends the next file while
/// there is one, and is complete after the last.
pub fn folder_next(done: usize, total: usize, last_failed: bool) -> (next: FolderNext)
    ensures
        next == (if last_failed {
            FolderNext::Stop
        } else if done < total {
            FolderNext::Upload(done)
        } else {
            FolderNext::Complete
        }),
{
    if last_failed {
        FolderNext::Stop
    } else if done < total {
        FolderNext::Upload(done)
    } else {
        FolderNext::Complete
    }
}

} // verus!
