use s3_tui::listing::MultipartUploadEntry;
use s3_tui::transfer::{
    download_start, find_upload_id, range_header, DownloadCounter, DownloadStart, UploadPlan,
    UploadSession, BUFFER_SIZE, S3_PARTS_LIMIT,
};

#[test]
fn empty_file_has_no_parts() {
    let plan = UploadPlan::new(0);
    assert_eq!(plan.chunk_size, BUFFER_SIZE);
    assert_eq!(plan.chunk_count, 0);
}

#[test]
fn small_file_uses_buffer_sized_parts() {
    let plan = UploadPlan::new(10 * 1024 * 1024 + 1);
    assert_eq!(plan.chunk_size, 5 * 1024 * 1024);
    assert_eq!(plan.chunk_count, 3);
    assert_eq!(plan.part(0), (0, 5 * 1024 * 1024));
    assert_eq!(plan.part(2), (10 * 1024 * 1024, 1));
    assert_eq!(plan.part_number(2), 3);
}

#[test]
fn huge_file_stays_within_parts_limit() {
    let size: u64 = BUFFER_SIZE * S3_PARTS_LIMIT * 3 + 7;
    let plan = UploadPlan::new(size);
    assert_eq!(plan.chunk_size, size.div_ceil(S3_PARTS_LIMIT));
    assert!(plan.chunk_count <= S3_PARTS_LIMIT);
    assert!(plan.chunk_size * plan.chunk_count >= size);
    let (offset, len) = plan.part(plan.chunk_count - 1);
    assert_eq!(offset + len, size);
}

#[test]
fn exact_limit_keeps_buffer_parts() {
    let plan = UploadPlan::new(BUFFER_SIZE * S3_PARTS_LIMIT);
    assert_eq!(plan.chunk_size, BUFFER_SIZE);
    assert_eq!(plan.chunk_count, S3_PARTS_LIMIT);
}

#[test]
fn progress_counts_whole_parts() {
    let plan = UploadPlan::new(12 * 1024 * 1024);
    assert_eq!(plan.progress(0), 0);
    assert_eq!(plan.progress(2), 10 * 1024 * 1024);
}

#[test]
fn parts_to_upload_skips_uploaded_ones() {
    let plan = UploadPlan::new(5 * BUFFER_SIZE);
    assert_eq!(plan.parts_to_upload(&vec![]), vec![1, 2, 3, 4, 5]);
    assert_eq!(plan.parts_to_upload(&vec![4, 1, 9]), vec![2, 3, 5]);
    assert!(plan.parts_to_upload(&vec![1, 2, 3, 4, 5]).is_empty());
}

fn upload(key: Option<&str>, id: Option<&str>) -> MultipartUploadEntry {
    MultipartUploadEntry { key: key.map(String::from), upload_id: id.map(String::from) }
}

#[test]
fn upload_id_of_first_matching_upload() {
    let uploads = vec![
        upload(None, Some("x")),
        upload(Some("a.bin"), Some("id-1")),
        upload(Some("b.bin"), Some("id-2")),
        upload(Some("b.bin"), Some("id-3")),
    ];
    assert_eq!(find_upload_id(&uploads, "b.bin"), Some(Ok("id-2".to_string())));
    assert_eq!(find_upload_id(&uploads, "c.bin"), None);
}

#[test]
fn upload_without_id_is_an_error() {
    let uploads = vec![upload(Some("a.bin"), None), upload(Some("a.bin"), Some("id"))];
    assert_eq!(find_upload_id(&uploads, "a.bin"), Some(Err("Found upload without ID".to_string())));
}

#[test]
fn range_header_is_decimal() {
    assert_eq!(range_header(0, 0), "bytes=0-0");
    assert_eq!(range_header(1024, 987654321), "bytes=1024-987654321");
    assert_eq!(range_header(u64::MAX, 10), format!("bytes={}-10", u64::MAX));
}

#[test]
fn download_start_cases() {
    assert_eq!(download_start(true, Some(5), 10), DownloadStart::AlreadyExists);
    assert_eq!(download_start(false, Some(10), 10), DownloadStart::RenameOnly);
    assert_eq!(download_start(false, Some(11), 10), DownloadStart::RenameOnly);
    assert_eq!(download_start(false, Some(4), 10), DownloadStart::Fetch(4));
    assert_eq!(download_start(false, None, 10), DownloadStart::Fetch(0));
}

#[test]
fn counter_reports_each_buffer() {
    let mut c = DownloadCounter::new(100, 20 * 1024 * 1024);
    assert!(!c.record(1024));
    assert_eq!(c.downloaded, 1124);
    assert!(c.record(BUFFER_SIZE as usize));
    assert_eq!(c.written_chunk, 0);
    assert_eq!(c.downloaded, 1124 + BUFFER_SIZE);
    assert!(!c.record(0));
}

#[test]
fn session_sends_missing_parts_in_order() {
    let size = 3 * BUFFER_SIZE + 10;
    let mut session = UploadSession::new(size, vec![(2, "t2".to_string())]);
    assert_eq!(session.plan.chunk_count, 4);
    assert_eq!(session.start_progress(), BUFFER_SIZE);
    assert_eq!(session.next_part(), Some((1, 0, BUFFER_SIZE)));
    assert_eq!(session.part_sent("t1".to_string()), BUFFER_SIZE);
    assert_eq!(session.next_part(), Some((3, 2 * BUFFER_SIZE, BUFFER_SIZE)));
    assert_eq!(session.part_sent("t3".to_string()), 3 * BUFFER_SIZE);
    assert_eq!(session.next_part(), Some((4, 3 * BUFFER_SIZE, 10)));
    assert_eq!(session.part_sent("t4".to_string()), 4 * BUFFER_SIZE);
    assert_eq!(session.next_part(), None);
    let numbers: Vec<i32> = session.completed.iter().map(|p| p.0).collect();
    assert_eq!(numbers, vec![2, 1, 3, 4]);
    assert_eq!(session.completed[1].1, "t1");
}

#[test]
fn fresh_session_of_empty_file_sends_nothing() {
    let session = UploadSession::new(0, vec![]);
    assert_eq!(session.start_progress(), 0);
    assert_eq!(session.next_part(), None);
    assert!(session.completed.is_empty());
}
