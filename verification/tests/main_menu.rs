use s3_tui::events::{FileProgress, FileUpdate, S3ObjectInfo};
use s3_tui::input::{KeyCode, KeyInput};
use s3_tui::listing::{MultipartUploadEntry, S3Object, S3ObjectsList};
use s3_tui::main_menu::{object_info_lines, ActiveWindow, InputWidget, InputWidgetType, MainAction, MainMenuWidget};
use s3_tui::progress::{KeyWithBucket, ProgressListState, SelectedProgressTab, UnfinishedUploadsListState};

fn key(code: KeyCode) -> KeyInput {
    KeyInput::new(code, 0)
}

fn press(m: &mut MainMenuWidget, code: KeyCode) -> MainAction {
    m.handle_key(key(code)).expect("no error expected")
}

fn type_text(m: &mut MainMenuWidget, text: &str) {
    for c in text.chars() {
        assert!(matches!(press(m, KeyCode::Char(c)), MainAction::Nothing));
    }
}

fn listing() -> S3ObjectsList {
    S3ObjectsList {
        bucket: "b1".to_string(),
        objects: vec![
            S3Object { key: Some("dir/file.txt".to_string()) },
            S3Object { key: Some("top.bin".to_string()) },
        ],
        uploads: vec![
            MultipartUploadEntry { key: Some("big.iso".to_string()), upload_id: Some("u-1".to_string()) },
            MultipartUploadEntry { key: Some("lost.iso".to_string()), upload_id: None },
            MultipartUploadEntry { key: Some("big.iso".to_string()), upload_id: Some("u-2".to_string()) },
            MultipartUploadEntry { key: None, upload_id: Some("u-3".to_string()) },
        ],
    }
}

#[test]
fn number_keys_pick_panes() {
    let mut m = MainMenuWidget::new(vec!["b1".to_string()]);
    assert_eq!(m.active_window, ActiveWindow::Buckets);
    press(&mut m, KeyCode::Char('2'));
    assert_eq!(m.active_window, ActiveWindow::FileTree);
    press(&mut m, KeyCode::Char('4'));
    assert_eq!(m.active_window, ActiveWindow::FilesProgress);
    assert_eq!(m.files_progress.selected, SelectedProgressTab::Uploads);
    press(&mut m, KeyCode::Char('5'));
    assert_eq!(m.files_progress.selected, SelectedProgressTab::UnfinishedUploads);
    press(&mut m, KeyCode::Char('3'));
    assert_eq!(m.files_progress.selected, SelectedProgressTab::Downloads);
    press(&mut m, KeyCode::Char('1'));
    assert_eq!(m.active_window, ActiveWindow::Buckets);
}

#[test]
fn focus_follows_active_pane() {
    let mut m = MainMenuWidget::new(vec![]);
    press(&mut m, KeyCode::Char('2'));
    m.sync_focus();
    assert!(!m.buckets.is_active);
    assert!(m.tree.is_active);
    assert!(!m.files_progress.is_active);
}

#[test]
fn enter_on_bucket_lists_it() {
    let mut m = MainMenuWidget::new(vec!["b1".to_string(), "b2".to_string()]);
    assert!(matches!(press(&mut m, KeyCode::Enter), MainAction::Nothing));
    press(&mut m, KeyCode::Down);
    press(&mut m, KeyCode::Down);
    match press(&mut m, KeyCode::Enter) {
        MainAction::ListObjects { bucket } => assert_eq!(bucket, "b2"),
        other => panic!("unexpected {:?}", other),
    }
}

#[test]
fn upload_from_bucket_pane() {
    let mut m = MainMenuWidget::new(vec!["b1".to_string()]);
    press(&mut m, KeyCode::Down);
    press(&mut m, KeyCode::Char('u'));
    let popup = m.input_popup.as_ref().unwrap();
    assert_eq!(popup.widget_type, InputWidgetType::Upload);
    assert_eq!(popup.bucket, "b1");
    assert_eq!(popup.title(), "Enter path to the file to upload");
    type_text(&mut m, "/tmp/photo.jpg");
    match press(&mut m, KeyCode::Enter) {
        MainAction::Upload { bucket, key, path } => {
            assert_eq!(bucket, "b1");
            assert_eq!(key, "photo.jpg");
            assert_eq!(path, "/tmp/photo.jpg");
        }
        other => panic!("unexpected {:?}", other),
    }
    assert!(m.input_popup.is_none());
    assert_eq!(m.files_progress.uploads.labels(), vec!["b1: photo.jpg: 0 B / 0 B".to_string()]);
}

#[test]
fn new_bucket_and_folder_popups() {
    let mut m = MainMenuWidget::new(vec!["b1".to_string()]);
    press(&mut m, KeyCode::Char('b'));
    assert_eq!(m.input_popup.as_ref().unwrap().widget_type, InputWidgetType::NewBucket);
    type_text(&mut m, "fresh");
    match press(&mut m, KeyCode::Enter) {
        MainAction::CreateBucket { name } => assert_eq!(name, "fresh"),
        other => panic!("unexpected {:?}", other),
    }
    assert!(m.input_popup.is_some());
    m.bucket_created(vec!["b1".to_string(), "fresh".to_string()]);
    assert!(m.input_popup.is_none());
    assert_eq!(m.buckets.list, vec!["b1".to_string(), "fresh".to_string()]);

    press(&mut m, KeyCode::Down);
    press(&mut m, KeyCode::Char('f'));
    type_text(&mut m, "new");
    match press(&mut m, KeyCode::Enter) {
        MainAction::CreateFolder { bucket, key } => {
            assert_eq!(bucket, "b1");
            assert_eq!(key, "new");
        }
        other => panic!("unexpected {:?}", other),
    }
    m.close_input_popup();
    assert!(m.input_popup.is_none());
}

#[test]
fn escape_closes_popup() {
    let mut m = MainMenuWidget::new(vec![]);
    press(&mut m, KeyCode::Char('b'));
    type_text(&mut m, "12");
    assert!(matches!(press(&mut m, KeyCode::Esc), MainAction::Nothing));
    assert!(m.input_popup.is_none());
    assert_eq!(m.active_window, ActiveWindow::Buckets);
}

#[test]
fn tree_actions_on_listing() {
    let mut m = MainMenuWidget::new(vec!["b1".to_string()]);
    m.set_bucket_objects(listing());
    press(&mut m, KeyCode::Char('2'));
    press(&mut m, KeyCode::Down);
    press(&mut m, KeyCode::Char('f'));
    let popup = m.input_popup.as_ref().unwrap();
    assert_eq!(popup.directory, "dir");
    assert_eq!(popup.widget_type, InputWidgetType::NewFolder);
    type_text(&mut m, "sub");
    match press(&mut m, KeyCode::Enter) {
        MainAction::CreateFolder { bucket, key } => {
            assert_eq!(bucket, "b1");
            assert_eq!(key, "dir/sub");
        }
        other => panic!("unexpected {:?}", other),
    }
    m.close_input_popup();
    press(&mut m, KeyCode::Enter);
    press(&mut m, KeyCode::Down);
    match press(&mut m, KeyCode::Char('d')) {
        MainAction::Download { bucket, key } => {
            assert_eq!(bucket, "b1");
            assert_eq!(key, "dir/file.txt");
        }
        other => panic!("unexpected {:?}", other),
    }
    assert!(matches!(press(&mut m, KeyCode::Char('d')), MainAction::Nothing));
    assert_eq!(m.files_progress.downloads.labels(), vec!["b1: file.txt: 0 B / 0 B".to_string()]);
    match press(&mut m, KeyCode::Char('i')) {
        MainAction::ObjectInfo { bucket, key } => assert_eq!((bucket.as_str(), key.as_str()), ("b1", "dir/file.txt")),
        other => panic!("unexpected {:?}", other),
    }
    match press(&mut m, KeyCode::Delete) {
        MainAction::DeleteObject { bucket, key } => assert_eq!((bucket.as_str(), key.as_str()), ("b1", "dir/file.txt")),
        other => panic!("unexpected {:?}", other),
    }
}

#[test]
fn upload_into_tree_folder() {
    let mut m = MainMenuWidget::new(vec![]);
    m.set_bucket_objects(listing());
    press(&mut m, KeyCode::Char('2'));
    press(&mut m, KeyCode::Down);
    press(&mut m, KeyCode::Char('u'));
    type_text(&mut m, "x/y/z.txt");
    match press(&mut m, KeyCode::Enter) {
        MainAction::Upload { bucket, key, path } => {
            assert_eq!(bucket, "b1");
            assert_eq!(key, "dir/z.txt");
            assert_eq!(path, "x/y/z.txt");
        }
        other => panic!("unexpected {:?}", other),
    }
}

#[test]
fn cancel_selected_download() {
    let mut m = MainMenuWidget::new(vec![]);
    m.set_bucket_objects(listing());
    press(&mut m, KeyCode::Char('2'));
    press(&mut m, KeyCode::Down);
    press(&mut m, KeyCode::Down);
    press(&mut m, KeyCode::Char('d'));
    press(&mut m, KeyCode::Char('3'));
    assert!(matches!(press(&mut m, KeyCode::Delete), MainAction::Nothing));
    press(&mut m, KeyCode::Down);
    assert_eq!(m.files_progress.controls(), Some("| Cancel download: Del |"));
    match press(&mut m, KeyCode::Delete) {
        MainAction::CancelDownload(kb) => {
            assert_eq!(kb, KeyWithBucket { key: "top.bin".to_string(), bucket: "b1".to_string() });
        }
        other => panic!("unexpected {:?}", other),
    }
    assert!(m.files_progress.downloads.labels().is_empty());
}

#[test]
fn unfinished_uploads_are_listed_once_per_key() {
    let list = UnfinishedUploadsListState::new("b1".to_string(), listing().uploads);
    assert_eq!(list.keys(), vec!["big.iso".to_string(), "lost.iso".to_string()]);
}

#[test]
fn abort_unfinished_upload() {
    let mut m = MainMenuWidget::new(vec![]);
    m.set_bucket_objects(listing());
    press(&mut m, KeyCode::Char('5'));
    press(&mut m, KeyCode::Down);
    match press(&mut m, KeyCode::Delete) {
        MainAction::AbortUpload { bucket, key, upload_id } => {
            assert_eq!(bucket, "b1");
            assert_eq!(key, "big.iso");
            assert_eq!(upload_id, "u-1");
        }
        other => panic!("unexpected {:?}", other),
    }
    press(&mut m, KeyCode::Down);
    assert_eq!(
        m.handle_key(key(KeyCode::Delete)).err(),
        Some("Could not get upload ID".to_string())
    );
}

#[test]
fn progress_updates_and_removals() {
    let mut p = ProgressListState::default();
    let mut m = MainMenuWidget::new(vec!["b".to_string()]);
    press(&mut m, KeyCode::Down);
    press(&mut m, KeyCode::Char('u'));
    type_text(&mut m, "f.bin");
    press(&mut m, KeyCode::Enter);
    std::mem::swap(&mut p, &mut m.files_progress.uploads);
    let ok = |done, size| FileUpdate::new("b".to_string(), "f.bin".to_string(), Ok(FileProgress::new(done, size)));
    assert_eq!(p.apply_update(ok(1500, 5_000_000)), None);
    assert_eq!(p.labels(), vec!["b: f.bin: 1.5 kB / 5.0 MB".to_string()]);
    assert_eq!(p.apply_update(FileUpdate::new("b".to_string(), "other".to_string(), Ok(FileProgress::new(9, 9)))), None);
    assert_eq!(p.labels().len(), 1);
    assert_eq!(p.apply_update(ok(5_000_000, 5_000_000)), None);
    assert!(p.labels().is_empty());
}

#[test]
fn failed_transfer_reports_error() {
    let mut m = MainMenuWidget::new(vec!["b".to_string()]);
    press(&mut m, KeyCode::Down);
    press(&mut m, KeyCode::Char('u'));
    type_text(&mut m, "g");
    press(&mut m, KeyCode::Enter);
    let err = m.files_progress.uploads.apply_update(FileUpdate::new(
        "b".to_string(),
        "g".to_string(),
        Err("boom".to_string()),
    ));
    assert_eq!(err, Some("boom".to_string()));
    assert!(m.files_progress.uploads.labels().is_empty());
}

#[test]
fn object_details_lines() {
    let info = S3ObjectInfo {
        key: "a/b/c.txt".to_string(),
        content_length: Some(1500),
        content_type: Some("text/plain".to_string()),
        last_modified: None,
    };
    assert_eq!(
        object_info_lines(&info),
        vec![
            "Name: c.txt".to_string(),
            "Size: 1.5 kB".to_string(),
            "Type: text/plain".to_string(),
            "Last modified: none".to_string(),
        ]
    );
    let bare = S3ObjectInfo { key: "x".to_string(), content_length: None, content_type: None, last_modified: Some("then".to_string()) };
    assert_eq!(
        object_info_lines(&bare),
        vec!["Name: x".to_string(), "Size: 0 B".to_string(), "Type: unknown".to_string(), "Last modified: then".to_string()]
    );
}

#[test]
fn popup_titles() {
    assert_eq!(InputWidget::new(String::new(), String::new(), InputWidgetType::NewFolder).title(), "Enter new folder name");
    assert_eq!(InputWidget::new(String::new(), String::new(), InputWidgetType::NewBucket).title(), "Enter new bucket name");
}
