use cursors::app::{App, BrowserView, PendingAction};
use cursors::apply::ApplyReport;
use cursors::event::{
    apply_theme_now, enter_or_apply, finish_open_dir, handle_key, open_selected_dir, rescan,
    restore_backup_now, restore_selected_backup, show_backups, Effect, Key, KeyPress,
};
use cursors::state::CursorState;
use cursors::system::backup::BackupSet;
use cursors::theme::{CursorTheme, ThemeSource};

fn theme(name: &str) -> CursorTheme {
    CursorTheme {
        name: name.to_string(),
        display_name: name.to_string(),
        source_dir: format!("/icons/{name}"),
        source_kind: ThemeSource::System,
    }
}

fn app() -> App {
    App::new(
        vec![theme("Adwaita"), theme("Yaru"), theme("mono")],
        CursorState { theme: "Adwaita".to_string(), size: 24 },
    )
}

fn key(k: Key) -> KeyPress {
    KeyPress { key: k, ctrl: false }
}

fn ch(c: char) -> KeyPress {
    key(Key::Char(c))
}

fn backup(id: &str, theme: &str, size: u32) -> BackupSet {
    BackupSet {
        id: id.to_string(),
        theme: theme.to_string(),
        size,
        dir: String::new(),
        created_at: 0,
        files: vec![],
    }
}

#[test]
fn ctrl_c_quits_from_anywhere() {
    let mut a = app();
    a.filter_mode = true;
    a.show_help = true;
    let e = handle_key(KeyPress { key: Key::Char('c'), ctrl: true }, &mut a);
    assert_eq!(e, Effect::Nothing);
    assert!(a.should_quit);
}

#[test]
fn help_closes_on_any_other_key() {
    let mut a = app();
    assert_eq!(handle_key(ch('?'), &mut a), Effect::Nothing);
    assert!(a.show_help);
    handle_key(ch('j'), &mut a);
    assert!(!a.show_help);
    assert_eq!(a.selected, 0);
    handle_key(ch('?'), &mut a);
    handle_key(ch('?'), &mut a);
    assert!(!a.show_help);
}

#[test]
fn enter_then_confirm_applies_selected_theme() {
    let mut a = app();
    handle_key(key(Key::Down), &mut a);
    handle_key(ch('+'), &mut a);
    assert_eq!(handle_key(key(Key::Enter), &mut a), Effect::Nothing);
    assert_eq!(a.pending_action, Some(PendingAction::ApplyTheme { theme_index: 1, size: 25 }));
    assert_eq!(a.status.text, "Confirm applying Yaru @ 25");
    assert_eq!(
        handle_key(ch('y'), &mut a),
        Effect::ApplyTheme { theme_index: 1, size: 25 }
    );
    assert!(a.pending_action.is_none());
    apply_theme_now(&mut a, 1, 25, Ok(vec![ApplyReport::changed("gtk", "x".to_string())]));
    assert_eq!(a.current, CursorState { theme: "Yaru".to_string(), size: 25 });
    assert_eq!(a.status.text, "Applied Yaru at size 25");
    assert!(!a.status.is_error);
}

#[test]
fn failed_apply_reports_error() {
    let mut a = app();
    apply_theme_now(&mut a, 0, 24, Err("boom".to_string()));
    assert_eq!(a.status.text, "Failed: boom");
    assert!(a.status.is_error);
    assert_eq!(a.current.theme, "Adwaita");
    apply_theme_now(&mut a, 9, 24, Ok(vec![]));
    assert_eq!(a.status.text, "Selected theme is no longer available");
}

#[test]
fn escape_cancels_pending_action() {
    let mut a = app();
    enter_or_apply(&mut a);
    assert!(a.pending_action.is_some());
    assert_eq!(handle_key(ch('j'), &mut a), Effect::Nothing);
    assert!(a.pending_action.is_some());
    handle_key(key(Key::Esc), &mut a);
    assert!(a.pending_action.is_none());
    assert_eq!(a.status.text, "Cancelled");
}

#[test]
fn search_typing_and_editing() {
    let mut a = app();
    handle_key(ch('/'), &mut a);
    assert!(a.filter_mode);
    handle_key(ch('y'), &mut a);
    handle_key(ch('a'), &mut a);
    assert_eq!(a.filter, "ya");
    handle_key(KeyPress { key: Key::Char('x'), ctrl: true }, &mut a);
    assert_eq!(a.filter, "ya");
    handle_key(key(Key::Backspace), &mut a);
    assert_eq!(a.filter, "y");
    handle_key(key(Key::Enter), &mut a);
    assert!(!a.filter_mode);
    assert_eq!(a.visible_items().len(), 1);
    handle_key(key(Key::Esc), &mut a);
    assert_eq!(a.filter, "");
}

#[test]
fn page_keys_ask_for_outside_work() {
    let mut a = app();
    assert_eq!(handle_key(ch('r'), &mut a), Effect::Rescan);
    assert_eq!(handle_key(ch('b'), &mut a), Effect::LoadBackups);
    assert_eq!(handle_key(ch(' '), &mut a), Effect::OpenDir { theme_index: 0 });
    a.filter = "none".to_string();
    assert_eq!(handle_key(ch(' '), &mut a), Effect::Nothing);
    assert_eq!(a.status.text, "Select a theme to open its directory");
}

#[test]
fn size_keys() {
    let mut a = app();
    handle_key(ch('-'), &mut a);
    assert_eq!(a.size, 23);
    handle_key(ch('='), &mut a);
    handle_key(ch('='), &mut a);
    assert_eq!(a.size, 25);
    handle_key(ch('d'), &mut a);
    assert_eq!(a.size, 24);
    handle_key(ch('q'), &mut a);
    assert!(a.should_quit);
}

#[test]
fn restore_flow_on_backup_page() {
    let mut a = app();
    restore_selected_backup(&mut a);
    assert_eq!(a.status.text, "Press b to view backups");
    show_backups(&mut a, vec![backup("2-Yaru-32", "Yaru", 32), backup("1-x-24", "x", 24)]);
    assert_eq!(a.view, BrowserView::Backups);
    assert_eq!(a.status.text, "Loaded 2 backups");
    handle_key(ch('j'), &mut a);
    assert_eq!(a.selected, 1);
    handle_key(ch('k'), &mut a);
    handle_key(key(Key::Enter), &mut a);
    assert_eq!(a.pending_action, Some(PendingAction::RestoreBackup { backup_index: 0 }));
    assert_eq!(a.status.text, "Confirm restoring 2-Yaru-32");
    assert_eq!(handle_key(ch('Y'), &mut a), Effect::RestoreBackup { backup_index: 0 });
    restore_backup_now(&mut a, 0, Ok(3));
    assert_eq!(a.current, CursorState { theme: "Yaru".to_string(), size: 32 });
    assert_eq!(a.status.text, "Restored 3 files and applied Yaru @ 32");
    restore_backup_now(&mut a, 0, Err("nope".to_string()));
    assert_eq!(a.status.text, "Restore failed: nope");
    restore_backup_now(&mut a, 5, Ok(1));
    assert_eq!(a.status.text, "Selected backup is no longer available");
    a.filter = "zzz".to_string();
    restore_selected_backup(&mut a);
    assert_eq!(a.status.text, "No backup selected");
    handle_key(ch('h'), &mut a);
    assert_eq!(a.view, BrowserView::Themes);
}

#[test]
fn rescan_replaces_themes() {
    let mut a = app();
    a.selected = 2;
    rescan(&mut a, vec![theme("one")]);
    assert_eq!(a.themes.len(), 1);
    assert_eq!(a.selected, 0);
    assert_eq!(a.status.text, "Rescanned 1 cursor themes");
}

#[test]
fn open_dir_reports_outcome() {
    let mut a = app();
    assert_eq!(open_selected_dir(&mut a), Some(0));
    finish_open_dir(&mut a, 0, true);
    assert_eq!(a.status.text, "Opened Adwaita");
    finish_open_dir(&mut a, 0, false);
    assert_eq!(a.status.text, "xdg-open is unavailable");
    assert!(a.status.is_error);
}

#[test]
fn confirming_a_vanished_theme_reports_it() {
    let mut a = app();
    a.pending_action = Some(PendingAction::ApplyTheme { theme_index: 7, size: 24 });
    assert_eq!(handle_key(key(Key::Enter), &mut a), Effect::Nothing);
    assert_eq!(a.status.text, "Selected theme is no longer available");
    assert!(a.pending_action.is_none());
}
