//! What a listing of a bucket brings back, held as plain values.
use vstd::prelude::*;

verus! {

/// An object of a bucket: its key, when the listing gave one.
#[derive(Debug, Clone)]
pub struct S3Object {
    pub key: Option<String>,
}

/// An unfinished multipart upload: its object key and upload id, when the
/// listing gave them.
#[derive(Debug, Clone)]
pub struct MultipartUploadEntry {
    pub key: Option<String>,
    pub upload_id: Option<String>,
}

/// The objects and unfinished uploads of one bucket.
#[derive(Debug)]
pub struct S3ObjectsList {
    pub bucket: String,
    pub objects: Vec<S3Object>,
    pub uploads: Vec<MultipartUploadEntry>,
}

} // verus!
