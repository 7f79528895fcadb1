use s3_tui::app::{App, AppAction, CurrentWindow};
use s3_tui::events::{FileProgress, FileUpdate, S3ObjectInfo, S3Update};
use s3_tui::input::{KeyCode, KeyInput, CONTROL};
use s3_tui::listing::{S3Object, S3ObjectsList};
use s3_tui::main_menu::MainAction;
use s3_tui::profile::{S3Profile, S3Secret};
use s3_tui::profiles_widget::{CurrentProfilesWindow, ProfilesAction};

fn key(code: KeyCode) -> KeyInput {
    KeyInput::new(code, 0)
}

fn profile(name: &str) -> S3Profile {
    S3Profile::new(name.to_string(), "e".to_string(), "r".to_string(), "a".to_string(), "s".to_string())
}

fn main_app() -> App {
    let mut app = App::new(S3Secret { profiles: vec![profile("p")] });
    app.connected(Ok(vec!["b1".to_string(), "b2".to_string()]));
    app
}

fn popup_message(app: &App) -> Option<String> {
    app.state.popup.as_ref().map(|p| p.message.clone())
}

#[test]
fn q_and_ctrl_c_quit() {
    let mut app = App::new(S3Secret { profiles: vec![] });
    assert!(!app.running);
    app.running = true;
    assert!(matches!(app.handle_key(key(KeyCode::Char('q'))), AppAction::Nothing));
    assert!(!app.running);
    app.running = true;
    app.handle_key(KeyInput::new(KeyCode::Char('C'), CONTROL));
    assert!(!app.running);
    app.running = true;
    app.handle_key(KeyInput::new(KeyCode::Char('c'), 0));
    assert!(app.running);
}

#[test]
fn popup_swallows_keys_until_enter() {
    let mut app = App::new(S3Secret { profiles: vec![] });
    app.show_error("broken".to_string());
    assert!(matches!(app.handle_key(key(KeyCode::Char('n'))), AppAction::Nothing));
    assert!(matches!(app.state.window, CurrentWindow::Profiles(ref p) if matches!(p.window, CurrentProfilesWindow::ProfileSelection(_))));
    assert_eq!(popup_message(&app), Some("broken".to_string()));
    app.handle_key(key(KeyCode::Enter));
    assert_eq!(popup_message(&app), None);
}

#[test]
fn profiles_keys_reach_the_screen() {
    let mut app = App::new(S3Secret { profiles: vec![profile("p")] });
    app.handle_key(key(KeyCode::Down));
    match app.handle_key(key(KeyCode::Enter)) {
        AppAction::Profiles(ProfilesAction::Connect(p)) => assert_eq!(p.name, "p"),
        _ => panic!("connect expected"),
    }
}

#[test]
fn screen_errors_open_the_popup() {
    let mut app = App::new(S3Secret { profiles: vec![profile("p")] });
    if let CurrentWindow::Profiles(p) = &mut app.state.window {
        p.window = CurrentProfilesWindow::ProfileSelection(s3_tui::selection::ListSelection { selected: Some(4), offset: 0 });
    }
    assert!(matches!(app.handle_key(key(KeyCode::Char('e'))), AppAction::Nothing));
    assert!(popup_message(&app).is_some());
}

#[test]
fn saving_profiles_shows_the_list_or_the_error() {
    let mut app = App::new(S3Secret { profiles: vec![] });
    app.handle_key(key(KeyCode::Char('n')));
    app.handle_key(key(KeyCode::Char('x')));
    assert!(matches!(app.handle_key(key(KeyCode::Enter)), AppAction::Profiles(ProfilesAction::Save)));
    app.profiles_saved(Err("keyring locked".to_string()));
    assert_eq!(popup_message(&app), Some("keyring locked".to_string()));
    assert!(matches!(app.state.window, CurrentWindow::Profiles(ref p) if matches!(p.window, CurrentProfilesWindow::NewProfile(_))));
    app.handle_key(key(KeyCode::Enter));
    app.profiles_saved(Ok(()));
    match &app.state.window {
        CurrentWindow::Profiles(p) => {
            assert!(matches!(p.window, CurrentProfilesWindow::ProfileSelection(_)));
            assert_eq!(p.secret.profiles.len(), 1);
        }
        _ => panic!("profiles expected"),
    }
}

#[test]
fn connecting_opens_main_screen() {
    let app = main_app();
    match &app.state.window {
        CurrentWindow::Main(m) => assert_eq!(m.buckets.list, vec!["b1".to_string(), "b2".to_string()]),
        _ => panic!("main expected"),
    }
    let mut failed = App::new(S3Secret { profiles: vec![] });
    failed.connected(Err("no route".to_string()));
    assert_eq!(popup_message(&failed), Some("no route".to_string()));
    assert!(matches!(failed.state.window, CurrentWindow::Profiles(_)));
}

#[test]
fn main_actions_come_back() {
    let mut app = main_app();
    app.handle_key(key(KeyCode::Down));
    match app.handle_key(key(KeyCode::Enter)) {
        AppAction::Main(MainAction::ListObjects { bucket }) => assert_eq!(bucket, "b1"),
        _ => panic!("listing expected"),
    }
}

#[test]
fn s3_events_on_main_screen() {
    let mut app = main_app();
    app.handle_s3_events(S3Update::ListObjects(S3ObjectsList {
        bucket: "b1".to_string(),
        objects: vec![S3Object { key: Some("f.txt".to_string()) }],
        uploads: vec![],
    }));
    app.handle_key(key(KeyCode::Char('2')));
    app.handle_key(key(KeyCode::Down));
    assert!(matches!(app.handle_key(key(KeyCode::Char('d'))), AppAction::Main(MainAction::Download { .. })));
    app.handle_s3_events(S3Update::DownloadProgress(FileUpdate::new(
        "b1".to_string(),
        "f.txt".to_string(),
        Ok(FileProgress::new(1, 2000)),
    )));
    match &app.state.window {
        CurrentWindow::Main(m) => assert_eq!(m.files_progress.downloads.labels(), vec!["b1: f.txt: 1 B / 2.0 kB".to_string()]),
        _ => panic!("main expected"),
    }
    app.handle_s3_events(S3Update::DownloadProgress(FileUpdate::new(
        "b1".to_string(),
        "f.txt".to_string(),
        Err("disk full".to_string()),
    )));
    assert_eq!(popup_message(&app), Some("disk full".to_string()));
    match &app.state.window {
        CurrentWindow::Main(m) => assert!(m.files_progress.downloads.labels().is_empty()),
        _ => panic!("main expected"),
    }
    let info = S3ObjectInfo { key: "f.txt".to_string(), content_length: Some(3), content_type: None, last_modified: None };
    app.handle_s3_events(S3Update::ObjectInfo(info));
    match &app.state.window {
        CurrentWindow::Main(m) => assert_eq!(m.object_info.as_ref().unwrap().key, "f.txt"),
        _ => panic!("main expected"),
    }
}

#[test]
fn s3_events_elsewhere_only_show_errors() {
    let mut app = App::new(S3Secret { profiles: vec![] });
    app.handle_s3_events(S3Update::UploadProgress(FileUpdate::new(
        "b".to_string(),
        "k".to_string(),
        Err("ignored".to_string()),
    )));
    assert_eq!(popup_message(&app), None);
    app.handle_s3_events(S3Update::Error("late".to_string()));
    assert_eq!(popup_message(&app), Some("late".to_string()));
}

#[test]
fn folder_and_bucket_outcomes() {
    let mut app = main_app();
    app.handle_key(key(KeyCode::Char('b')));
    app.bucket_created(Err("taken".to_string()));
    assert_eq!(popup_message(&app), Some("taken".to_string()));
    app.handle_key(key(KeyCode::Enter));
    app.bucket_created(Ok(vec!["new".to_string()]));
    match &app.state.window {
        CurrentWindow::Main(m) => {
            assert!(m.input_popup.is_none());
            assert_eq!(m.buckets.list, vec!["new".to_string()]);
        }
        _ => panic!("main expected"),
    }
    app.handle_key(key(KeyCode::Down));
    app.handle_key(key(KeyCode::Char('f')));
    app.folder_created(Ok(()));
    match &app.state.window {
        CurrentWindow::Main(m) => assert!(m.input_popup.is_none()),
        _ => panic!("main expected"),
    }
}
