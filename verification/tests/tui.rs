use snag::cli::attach::{KeyCode, KeyPress};
use snag::protocol::types::SessionInfo;
use snag::tui::app::{App, InputMode, TuiAction};
use snag::tui::view::{preview_skip, preview_title, row_style, row_text_of, status_text, RowStyle};

fn session(id: &str, name: Option<&str>, snagged: Option<&str>) -> SessionInfo {
    SessionInfo {
        id: id.to_string(),
        name: name.map(|s| s.to_string()),
        shell: "/bin/bash".to_string(),
        cwd: "/tmp".to_string(),
        state: "running".to_string(),
        fg_process: None,
        attached: 0,
        registered: false,
        created_at: String::new(),
        snagged_by: snagged.map(|s| s.to_string()),
    }
}

fn press(c: char) -> KeyPress {
    KeyPress { code: KeyCode::Char(c), ctrl: false }
}

fn app_with_three() -> App {
    let mut app = App::new();
    app.set_sessions(vec![
        session("aaaa1111", Some("one"), None),
        session("bbbb2222", None, Some("remote")),
        session("cccc3333", Some("three"), None),
    ]);
    app
}

#[test]
fn selection_wraps() {
    let mut app = app_with_three();
    app.select_prev();
    assert_eq!(app.selected, 2);
    app.select_next();
    assert_eq!(app.selected, 0);
    app.select_next();
    assert_eq!(app.selected_id().as_deref(), Some("bbbb2222"));
}

#[test]
fn hiding_taken_over_sessions() {
    let mut app = app_with_three();
    app.selected = 2;
    app.toggle_hide_snagged();
    assert_eq!(app.visible_sessions().len(), 2);
    assert_eq!(app.selected, 1);
    assert_eq!(app.selected_id().as_deref(), Some("cccc3333"));
    app.toggle_hide_snagged();
    assert_eq!(app.visible_sessions().len(), 3);
}

#[test]
fn browsing_keys() {
    let mut app = app_with_three();
    assert!(matches!(app.handle_normal_key(press('j')), TuiAction::RefreshPreview));
    assert_eq!(app.selected, 1);
    assert!(matches!(app.handle_normal_key(KeyPress { code: KeyCode::Enter, ctrl: false }), TuiAction::Attach(ref id) if id == "bbbb2222"));
    assert!(matches!(app.handle_normal_key(press('x')), TuiAction::Kill(ref id) if id == "bbbb2222"));
    assert!(matches!(app.handle_normal_key(press('n')), TuiAction::NewSession));
    assert!(matches!(app.handle_normal_key(press('c')), TuiAction::Nothing));
    assert!(!app.should_quit);
    assert!(matches!(app.handle_normal_key(KeyPress { code: KeyCode::Char('c'), ctrl: true }), TuiAction::Nothing));
    assert!(app.should_quit);
}

#[test]
fn typing_a_new_name() {
    let mut app = app_with_three();
    app.handle_normal_key(press('r'));
    assert_eq!(app.input_mode, InputMode::Rename);
    for c in "prodx".chars() {
        app.handle_input_key(press(c));
    }
    app.handle_input_key(KeyPress { code: KeyCode::Backspace, ctrl: false });
    assert_eq!(app.input_buffer, "prod");
    match app.handle_input_key(KeyPress { code: KeyCode::Enter, ctrl: false }) {
        TuiAction::Rename { target, new_name } => {
            assert_eq!(target, "aaaa1111");
            assert_eq!(new_name, "prod");
        }
        _ => panic!("expected a rename"),
    }
    assert_eq!(app.input_mode, InputMode::Normal);
    assert_eq!(app.input_buffer, "");
    app.handle_normal_key(press('s'));
    assert!(matches!(app.handle_input_key(KeyPress { code: KeyCode::Enter, ctrl: false }), TuiAction::Nothing));
    app.handle_normal_key(press('s'));
    app.handle_input_key(press('l'));
    assert!(matches!(app.handle_input_key(KeyPress { code: KeyCode::Esc, ctrl: false }), TuiAction::Nothing));
    assert_eq!(app.input_mode, InputMode::Normal);
}

#[test]
fn list_rows_and_bars() {
    let s = session("0123456789abcdef", Some("dev"), Some("alice"));
    assert_eq!(
        row_text_of(&s, true, None),
        format!("\u{25b8} 01234567  {:<10} {:<6} {:<25} idle \u{2190} alice", "dev", "bash", "/tmp")
    );
    assert!(row_style(&s, true) == RowStyle::Selected);
    assert!(row_style(&s, false) == RowStyle::Snagged);
    let mut ended = session("x", None, None);
    ended.state = "exited(1)".to_string();
    assert!(row_style(&ended, false) == RowStyle::Ended);
    let app = app_with_three();
    assert_eq!(preview_title(&app), " Preview (one) ");
    assert_eq!(
        status_text(&app),
        " [n]ew [x]kill [r]ename [s]end [Enter]attach [h]hide snagged [q]uit"
    );
    assert_eq!(preview_skip(30, 12), 20);
    assert_eq!(preview_skip(5, 12), 0);
    assert_eq!(preview_skip(5, 1), 5);
}

#[test]
fn refreshing_keeps_selection_in_range() {
    let mut app = app_with_three();
    app.selected = 2;
    app.set_sessions(vec![session("z", None, None)]);
    assert_eq!(app.selected, 0);
    app.set_preview("text".to_string());
    assert_eq!(app.preview_raw, "text");
}

#[test]
fn next_then_prev_comes_back() {
    let mut app = app_with_three();
    for start in 0..3usize {
        app.selected = start;
        app.select_next();
        app.select_prev();
        assert_eq!(app.selected, start);
        app.select_prev();
        app.select_next();
        assert_eq!(app.selected, start);
    }
}
