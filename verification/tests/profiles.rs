use s3_tui::input::{KeyCode, KeyInput};
use s3_tui::profile::{S3Profile, S3Secret};
use s3_tui::profile_info::{ProfileInfo, SelectedField};
use s3_tui::profiles_widget::{CurrentProfilesWindow, EditProfileWidget, ProfilesAction, ProfilesWidget};
use s3_tui::selection::ListSelection;

fn key(code: KeyCode) -> KeyInput {
    KeyInput::new(code, 0)
}

fn type_text(w: &mut ProfilesWidget, text: &str) {
    for c in text.chars() {
        assert!(matches!(w.handle_key(key(KeyCode::Char(c))), Ok(ProfilesAction::Nothing)));
    }
}

fn profile(name: &str) -> S3Profile {
    S3Profile::new(
        name.to_string(),
        "http://localhost:9000".to_string(),
        "eu-1".to_string(),
        "AKID".to_string(),
        "SECRET-REDACTED".to_string(),
    )
}

#[test]
fn fields_cycle_both_ways() {
    let order = [
        SelectedField::Name,
        SelectedField::Endpoint,
        SelectedField::Region,
        SelectedField::AccessKeyId,
        SelectedField::SecretAccessKey,
    ];
    for i in 0..5 {
        assert_eq!(order[i].index(), i);
        assert_eq!(order[i].next_field(), order[(i + 1) % 5]);
        assert_eq!(order[i].prev_field(), order[(i + 4) % 5]);
        assert_eq!(order[i].next_field().prev_field(), order[i]);
    }
}

#[test]
fn profile_info_round_trip() {
    let info = ProfileInfo::from_existing(profile("p"));
    assert_eq!(info.selected, SelectedField::Name);
    let p = info.to_profile();
    assert_eq!(p.name, "p");
    assert_eq!(p.endpoint, "http://localhost:9000");
    assert_eq!(p.region, "eu-1");
    assert_eq!(p.access_key_id, "AKID");
    assert_eq!(p.secret_access_key, "SECRET-REDACTED");
}

#[test]
fn profile_info_edits_focused_field() {
    let mut info = ProfileInfo::default();
    info.select_next();
    assert_eq!(info.selected, SelectedField::Endpoint);
    assert!(info.edit_current_field(key(KeyCode::Char('h'))));
    assert!(info.edit_current_field(key(KeyCode::Char('i'))));
    assert!(info.edit_current_field(key(KeyCode::Backspace)));
    assert!(!info.edit_current_field(key(KeyCode::Enter)));
    info.select_previous();
    info.select_previous();
    assert_eq!(info.selected, SelectedField::SecretAccessKey);
    let p = info.to_profile();
    assert_eq!(p.name, "");
    assert_eq!(p.endpoint, "h");
}

#[test]
fn new_profile_is_saved_then_listed() {
    let mut w = ProfilesWidget::with_secret(S3Secret { profiles: vec![] });
    assert_eq!(w.selection_controls(&ListSelection::new()), "| New profile: n | Quit: Esc |");
    assert!(matches!(w.handle_key(key(KeyCode::Char('n'))), Ok(ProfilesAction::Nothing)));
    assert!(matches!(w.window, CurrentProfilesWindow::NewProfile(_)));
    type_text(&mut w, "prod");
    assert!(matches!(w.handle_key(key(KeyCode::Down)), Ok(ProfilesAction::Nothing)));
    type_text(&mut w, "http://s3");
    assert!(matches!(w.handle_key(key(KeyCode::Enter)), Ok(ProfilesAction::Save)));
    assert_eq!(w.secret.profiles.len(), 1);
    assert_eq!(w.secret.profiles[0].name, "prod");
    assert_eq!(w.secret.profiles[0].endpoint, "http://s3");
    assert_eq!(w.secret.profiles[0].region, "");
    w.finish_save();
    assert!(matches!(w.window, CurrentProfilesWindow::ProfileSelection(s) if s.selected.is_none()));
}

#[test]
fn escape_leaves_form_without_saving() {
    let mut w = ProfilesWidget::with_secret(S3Secret { profiles: vec![profile("a")] });
    w.handle_key(key(KeyCode::Char('n'))).unwrap();
    type_text(&mut w, "zzz");
    assert!(matches!(w.handle_key(key(KeyCode::Esc)), Ok(ProfilesAction::Nothing)));
    assert!(matches!(w.window, CurrentProfilesWindow::ProfileSelection(_)));
    assert_eq!(w.secret.profiles.len(), 1);
}

#[test]
fn enter_connects_with_selected_profile() {
    let mut w = ProfilesWidget::with_secret(S3Secret { profiles: vec![profile("a"), profile("b")] });
    assert!(matches!(w.handle_key(key(KeyCode::Enter)), Ok(ProfilesAction::Nothing)));
    w.handle_key(key(KeyCode::Down)).unwrap();
    w.handle_key(key(KeyCode::Down)).unwrap();
    match &w.window {
        CurrentProfilesWindow::ProfileSelection(s) => {
            assert_eq!(s.selected, Some(1));
            assert_eq!(
                w.selection_controls(s),
                "| Connect: Enter | New profile: n | Edit profile: e | Delete profile: Del | Quit: q |"
            );
        }
        _ => panic!("list expected"),
    }
    match w.handle_key(key(KeyCode::Enter)) {
        Ok(ProfilesAction::Connect(p)) => assert_eq!(p.name, "b"),
        _ => panic!("connect expected"),
    }
}

#[test]
fn edit_replaces_profile_in_place() {
    let mut w = ProfilesWidget::with_secret(S3Secret { profiles: vec![profile("a"), profile("b")] });
    w.handle_key(key(KeyCode::Down)).unwrap();
    w.handle_key(key(KeyCode::Char('e'))).unwrap();
    assert!(matches!(&w.window, CurrentProfilesWindow::EditProfile(e) if e.index == 0));
    type_text(&mut w, "2");
    assert!(matches!(w.handle_key(key(KeyCode::Enter)), Ok(ProfilesAction::Save)));
    assert_eq!(w.secret.profiles.len(), 2);
    assert_eq!(w.secret.profiles[0].name, "a2");
    assert_eq!(w.secret.profiles[1].name, "b");
}

#[test]
fn edit_past_the_end_fails() {
    let mut w = ProfilesWidget::with_secret(S3Secret { profiles: vec![profile("a")] });
    w.window = CurrentProfilesWindow::EditProfile(EditProfileWidget::new(3, profile("x")));
    assert!(w.handle_key(key(KeyCode::Enter)).is_err());
    assert_eq!(w.secret.profiles[0].name, "a");
    assert_eq!(w.try_save_profile(), Err("Could not edit profile".to_string()));
}

#[test]
fn edit_of_missing_selection_fails() {
    let mut w = ProfilesWidget::with_secret(S3Secret { profiles: vec![profile("a")] });
    w.window = CurrentProfilesWindow::ProfileSelection(ListSelection { selected: Some(7), offset: 0 });
    assert!(matches!(w.handle_key(key(KeyCode::Char('e'))), Err(m) if m == "Could not get profile"));
}

#[test]
fn delete_asks_then_removes() {
    let mut w = ProfilesWidget::with_secret(S3Secret { profiles: vec![profile("a"), profile("b")] });
    w.handle_key(key(KeyCode::Down)).unwrap();
    w.handle_key(key(KeyCode::Down)).unwrap();
    w.handle_key(key(KeyCode::Delete)).unwrap();
    assert!(matches!(w.window, CurrentProfilesWindow::DeleteProfileConfirmation(1)));
    assert_eq!(w.delete_message(1), "Are you sure you want to delete profile \"b\"?");
    assert!(matches!(w.handle_key(key(KeyCode::Char('x'))), Ok(ProfilesAction::Nothing)));
    assert!(matches!(w.handle_key(key(KeyCode::Char('y'))), Ok(ProfilesAction::Save)));
    assert_eq!(w.secret.profiles.len(), 1);
    assert_eq!(w.secret.profiles[0].name, "a");
}

#[test]
fn delete_can_be_declined() {
    let mut w = ProfilesWidget::with_secret(S3Secret { profiles: vec![profile("a")] });
    w.handle_key(key(KeyCode::Down)).unwrap();
    w.handle_key(key(KeyCode::Delete)).unwrap();
    w.handle_key(key(KeyCode::Char('n'))).unwrap();
    assert!(matches!(w.window, CurrentProfilesWindow::ProfileSelection(_)));
    assert_eq!(w.secret.profiles.len(), 1);
}
