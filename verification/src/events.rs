//! Messages: error popups, transfer progress and what the S3 tasks report.
use crate::listing::S3ObjectsList;
use vstd::prelude::*;

verus! {

/// An error message shown over the screen until Enter is pressed.
#[derive(Debug, Clone)]
pub struct Popup {
    pub message: String,
}

impl Popup {
    /// A popup that shows `message`.
    pub fn new(message: String) -> (r: Self)
        ensures
            r.message == message,
    {
        Self { message }
    }
}

/// How far a transfer has come: bytes done out of the whole size.
#[derive(Debug, Clone, Copy)]
pub struct FileProgress {
    pub done: u64,
    pub size: u64,
}

impl FileProgress {
    /// `done` bytes of `size`.
    pub fn new(done: u64, size: u64) -> (r: Self)
        ensures
            r.done == done,
            r.size == size,
    {
        Self { done, size }
    }
}

/// A report on the transfer of one object: its progress, or the error
/// that ended it.
#[derive(Debug)]
pub struct FileUpdate {
    pub bucket: String,
    pub key: String,
    pub result: Result<FileProgress, String>,
}

impl FileUpdate {
    /// A report on the transfer of `key` in `bucket`.
    pub fn new(bucket: String, key: String, result: Result<FileProgress, String>) -> (r: Self)
        ensures
            r.bucket == bucket,
            r.key == key,
            r.result == result,
    {
        Self { bucket, key, result }
    }
}

/// What the head of an object tells about it.
#[derive(Debug, Clone)]
pub struct S3ObjectInfo {
    pub key: String,
    pub content_length: Option<i64>,
    pub content_type: Option<String>,
    pub last_modified: Option<String>,
}

/// What a background S3 task reports.
#[derive(Debug)]
pub enum S3Update {
    ListObjects(S3ObjectsList),
    ObjectInfo(S3ObjectInfo),
    DownloadProgress(FileUpdate),
    UploadProgress(FileUpdate),
    Error(String),
}

} // verus!
