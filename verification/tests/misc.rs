use s3_tui::buckets::{bucket_names, BucketsWidget};
use s3_tui::events::{FileProgress, Popup};
use s3_tui::input::{KeyCode, KeyInput};
use s3_tui::profiles_widget::NewProfileWidget;
use s3_tui::progress::Progress;
use s3_tui::selection::ListSelection;
use s3_tui::text_input::SingleLineInput;

#[test]
fn bucket_names_drop_missing_and_empty() {
    let names = vec![Some("a".to_string()), None, Some(String::new()), Some("b".to_string())];
    assert_eq!(bucket_names(names), vec!["a".to_string(), "b".to_string()]);
}

#[test]
fn new_buckets_widget_has_no_selection() {
    let mut w = BucketsWidget::new(vec!["x".to_string()]);
    assert!(w.state.selected.is_none());
    assert!(w.is_active);
    w.set_active(false);
    assert!(!w.is_active);
}

#[test]
fn list_selection_moves() {
    let mut s = ListSelection::new();
    s.select_next();
    assert_eq!(s.selected, Some(0));
    s.select_next();
    assert_eq!(s.selected, Some(1));
    s.select_previous();
    assert_eq!(s.selected, Some(0));
    s.select_previous();
    assert_eq!(s.selected, Some(0));
    let mut t = ListSelection::new();
    t.select_previous();
    assert_eq!(t.selected, Some(usize::MAX));
    t.offset = 3;
    t.select(None);
    assert_eq!(t.offset, 0);
    t.select_next();
    t.select_next();
    assert_eq!(t.selected, Some(1));
}

#[test]
fn simple_constructors() {
    assert_eq!(Popup::new("m".to_string()).message, "m");
    let p = FileProgress::new(3, 4);
    assert_eq!((p.done, p.size), (3, 4));
    let q = Progress::new(5, 6);
    assert_eq!((q.done, q.size), (5, 6));
}

#[test]
fn single_line_input_editing() {
    let mut input = SingleLineInput::new("abc".to_string(), false, true);
    assert_eq!(input.text(), "abc");
    assert!(input.handle_text_input(KeyInput::new(KeyCode::Char('d'), 0)));
    assert_eq!(input.text(), "abcd");
    assert!(input.handle_text_input(KeyInput::new(KeyCode::Left, 0)));
    assert!(input.handle_text_input(KeyInput::new(KeyCode::Backspace, 0)));
    assert_eq!(input.text(), "abd");
    assert!(input.handle_text_input(KeyInput::new(KeyCode::Delete, 0)));
    assert_eq!(input.text(), "ab");
    assert!(!input.handle_text_input(KeyInput::new(KeyCode::Enter, 0)));
    assert!(input.active);
    input.deactivate_input();
    assert!(!input.active);
}

#[test]
fn new_profile_form_starts_empty() {
    let w = NewProfileWidget::default();
    assert_eq!(w.info.to_profile().name, "");
}

#[test]
fn control_arrows_move_by_words() {
    let mut input = SingleLineInput::new("foo bar".to_string(), false, true);
    assert!(input.handle_text_input(KeyInput::new(KeyCode::Left, s3_tui::input::CONTROL)));
    assert!(input.handle_text_input(KeyInput::new(KeyCode::Char('X'), 0)));
    assert_eq!(input.text(), "foo Xbar");
    assert!(input.handle_text_input(KeyInput::new(KeyCode::Left, s3_tui::input::CONTROL)));
    assert!(input.handle_text_input(KeyInput::new(KeyCode::Left, s3_tui::input::CONTROL)));
    assert!(input.handle_text_input(KeyInput::new(KeyCode::Char('Y'), 0)));
    assert_eq!(input.text(), "Yfoo Xbar");
    assert!(input.handle_text_input(KeyInput::new(KeyCode::Right, s3_tui::input::CONTROL)));
    assert!(input.handle_text_input(KeyInput::new(KeyCode::Char('Z'), 0)));
    assert_eq!(input.text(), "Yfoo ZXbar");
}

#[test]
fn line_break_splits_the_field() {
    let mut input = SingleLineInput::new("abc".to_string(), true, false);
    assert!(input.handle_text_input(KeyInput::new(KeyCode::Left, 0)));
    assert!(input.handle_text_input(KeyInput::new(KeyCode::Char('\n'), 0)));
    assert_eq!(input.text(), "ab");
    assert!(input.handle_text_input(KeyInput::new(KeyCode::Backspace, 0)));
    assert_eq!(input.text(), "abc");
    assert!(input.hidden);
}
