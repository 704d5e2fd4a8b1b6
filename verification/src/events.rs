//! Progress events: what the engine tells the shell while it works.
//!
//! Every event has a topic and a payload. The events of one upload share the
//! upload's correlation identifier; an upload starts with `upload_start`
//! and ends with `upload_complete`, and all its progress events lie between
//! the two.

use vstd::prelude::*;

verus! {

/// An event and its payload.
#[derive(Debug)]
#[allow(inconsistent_fields)]
pub enum ProgressEvent {
    /// An upload begins.
    UploadStart {
        /// The upload's correlation identifier.
        upload_id: String,
        /// Name of the file or folder that is uploaded.
        filename: String,
        /// Whether the file goes up in parts.
        multipart: bool,
        /// Whether a folder is uploaded.
        is_folder: bool,
        /// Number of files in the folder; only for a folder.
        total_files: Option<u64>,
        /// Number of parts; only for an upload in parts.
        total_parts: Option<u64>,
    },
    /// The next file of a folder is about to go up.
    FolderProgress {
        /// The upload's correlation identifier.
        upload_id: String,
        /// The file's path below the folder.
        filename: String,
        /// Position of the file, counted from one.
        current_file: u64,
        /// Number of files in the folder.
        total_files: u64,
    },
    /// The next part of a file is about to go up.
    UploadProgress {
        /// The upload's correlation identifier.
        upload_id: String,
        /// Name of the file.
        filename: String,
        /// Number of the part, counted from one.
        part: u64,
        /// Number of parts.
        total_parts: u64,
    },
    /// An upload is done.
    UploadComplete {
        /// The upload's correlation identifier.
        upload_id: String,
    },
    /// A download begins.
    DownloadStart {
        /// Name of the file as it is shown.
        filename: String,
        /// Expected number of bytes, as far as the store tells.
        total_bytes: u64,
    },
    /// More of a download has arrived.
    DownloadProgress {
        /// Name of the file.
        filename: String,
        /// Number of bytes received so far.
        downloaded_bytes: u64,
        /// Expected number of bytes.
        total_bytes: u64,
    },
    /// A download is done.
    DownloadComplete {
        /// Name of the file.
        filename: String,
        /// Number of bytes received.
        total_bytes: u64,
    },
}

/// The topic under which an event is sent.
pub open spec fn topic_of(event: ProgressEvent) -> Seq<char> {
    match event {
        ProgressEvent::UploadStart { .. } => "upload_start"@,
        ProgressEvent::FolderProgress { .. } => "folder_progress"@,
        ProgressEvent::UploadProgress { .. } => "upload_progress"@,
        ProgressEvent::UploadComplete { .. } => "upload_complete"@,
        ProgressEvent::DownloadStart { .. } => "download_start"@,
        ProgressEvent::DownloadProgress { .. } => "download_progress"@,
        ProgressEvent::DownloadComplete { .. } => "download_complete"@,
    }
}

impl ProgressEvent {
    /// The topic under which the event is sent.
    pub fn topic(&self) -> (text: &'static str)
        ensures
            text@ == topic_of(*self),
    {
        match self {
            ProgressEvent::UploadStart { .. } => "upload_start",
            ProgressEvent::FolderProgress { .. } => "folder_progress",
            ProgressEvent::UploadProgress { .. } => "upload_progress",
            ProgressEvent::UploadComplete { .. } => "upload_complete",
            ProgressEvent::DownloadStart { .. } => "download_start",
            ProgressEvent::DownloadProgress { .. } => "download_progress",
            ProgressEvent::DownloadComplete { .. } => "download_complete",
        }
    }
}

/// What an event says, with texts as sequences of characters.
#[allow(inconsistent_fields)]
pub enum EventView {
    /// An upload begins.
    UploadStart {
        upload_id: Seq<char>,
        filename: Seq<char>,
        multipart: bool,
        is_folder: bool,
        total_files: Option<u64>,
        total_parts: Option<u64>,
    },
    /// The next file of a folder is about to go up.
    FolderProgress { upload_id: Seq<char>, filename: Seq<char>, current_file: u64, total_files: u64 },
    /// The next part of a file is about to go up.
    UploadProgress { upload_id: Seq<char>, filename: Seq<char>, part: u64, total_parts: u64 },
    /// An upload is done.
    UploadComplete { upload_id: Seq<char> },
    /// A download begins.
    DownloadStart { filename: Seq<char>, total_bytes: u64 },
    /// More of a download has arrived.
    DownloadProgress { filename: Seq<char>, downloaded_bytes: u64, total_bytes: u64 },
    /// A download is done.
    DownloadComplete { filename: Seq<char>, total_bytes: u64 },
}

impl View for ProgressEvent {
    type V = EventView;

    open spec fn view(&self) -> EventView {
        match *self {
            ProgressEvent::UploadStart {
                upload_id,
                filename,
                multipart,
                is_folder,
                total_files,
                total_parts,
            } => EventView::UploadStart {
                upload_id: upload_id@,
                filename: filename@,
                multipart,
                is_folder,
                total_files,
                total_parts,
            },
            ProgressEvent::FolderProgress {
                upload_id,
                filename,
                current_file,
                total_files,
            } => EventView::FolderProgress {
                upload_id: upload_id@,
                filename: filename@,
                current_file,
                total_files,
            },
            ProgressEvent::UploadProgress {
                upload_id,
                filename,
                part,
                total_parts,
            } => EventView::UploadProgress {
                upload_id: upload_id@,
                filename: filename@,
                part,
                total_parts,
            },
            ProgressEvent::UploadComplete { upload_id } => EventView::UploadComplete {
                upload_id: upload_id@,
            },
            ProgressEvent::DownloadStart { filename, total_bytes } => EventView::DownloadStart {
                filename: filename@,
                total_bytes,
            },
            ProgressEvent::DownloadProgress {
                filename,
                downloaded_bytes,
                total_bytes,
            } => EventView::DownloadProgress { filename: filename@, downloaded_bytes, total_bytes },
            ProgressEvent::DownloadComplete { filename, total_bytes } => EventView::DownloadComplete {
                filename: filename@,
                total_bytes,
            },
        }
    }
}

} // verus!
