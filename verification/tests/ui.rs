use cursors::app::{App, BrowserView, PendingAction};
use cursors::state::CursorState;
use cursors::system::backup::{BackupFile, BackupSet};
use cursors::theme::{CursorTheme, ThemeSource};
use cursors::ui::{
    backup_row_parts, centered_rect, confirmation_message, current_marker, highlighted_row,
    is_current_theme, missing_suffix, search_state, theme_count_text, view_name, Area,
};

#[test]
fn pop_ups_are_centred_and_fit() {
    let area = Area { x: 0, y: 0, width: 100, height: 40 };
    assert_eq!(centered_rect(74, 16, area), Area { x: 13, y: 12, width: 74, height: 16 });
    let small = Area { x: 2, y: 1, width: 10, height: 3 };
    assert_eq!(centered_rect(74, 16, small), Area { x: 2, y: 1, width: 10, height: 3 });
}

#[test]
fn search_line_text() {
    assert_eq!(search_state(true, "ya"), "searching ya");
    assert_eq!(search_state(false, ""), "/ search");
    assert_eq!(search_state(false, "ya"), "search ya");
    assert_eq!(view_name(BrowserView::Themes), "themes");
    assert_eq!(view_name(BrowserView::Backups), "backups");
}

#[test]
fn confirmation_questions() {
    let mut app = App::new(
        vec![CursorTheme {
            name: "Yaru".to_string(),
            display_name: "Yaru".to_string(),
            source_dir: "/i/Yaru".to_string(),
            source_kind: ThemeSource::System,
        }],
        CursorState { theme: "x".to_string(), size: 24 },
    );
    assert_eq!(confirmation_message(&app), None);
    app.pending_action = Some(PendingAction::ApplyTheme { theme_index: 0, size: 32 });
    assert_eq!(confirmation_message(&app).unwrap(), "Apply Yaru @ 32?");
    app.pending_action = Some(PendingAction::ApplyTheme { theme_index: 3, size: 32 });
    assert_eq!(confirmation_message(&app).unwrap(), "Apply selected theme?");
    app.backups.push(BackupSet {
        id: "1".to_string(),
        theme: "Adwaita".to_string(),
        size: 24,
        dir: String::new(),
        created_at: 1,
        files: vec![],
    });
    app.pending_action = Some(PendingAction::RestoreBackup { backup_index: 0 });
    assert_eq!(confirmation_message(&app).unwrap(), "Restore Adwaita @ 24?");
    app.pending_action = Some(PendingAction::RestoreBackup { backup_index: 4 });
    assert_eq!(confirmation_message(&app).unwrap(), "Restore selected backup?");
}

#[test]
fn highlight_stays_on_a_row() {
    assert_eq!(highlighted_row(0, 3), 0);
    assert_eq!(highlighted_row(2, 3), 2);
    assert_eq!(highlighted_row(9, 3), 2);
}

#[test]
fn theme_rows_mark_the_current_theme() {
    let app = App::new(vec![], CursorState { theme: "Bibata".to_string(), size: 24 });
    assert!(is_current_theme(&app, "Bibata"));
    assert!(!is_current_theme(&app, "Bibata-Modern"));
    assert!(!is_current_theme(&app, "bibata"));
    assert_eq!(current_marker(true), "* ");
    assert_eq!(current_marker(false), "  ");
}

#[test]
fn missing_files_are_noted() {
    assert_eq!(missing_suffix(true), "");
    assert_eq!(missing_suffix(false), " (missing)");
}

#[test]
fn status_line_counts_themes() {
    assert_eq!(theme_count_text(0), "0 themes");
    assert_eq!(theme_count_text(1), "1 themes");
    assert_eq!(theme_count_text(128), "128 themes");
}

#[test]
fn backup_rows_show_size_files_and_id() {
    let file = BackupFile {
        target: "xresources".to_string(),
        original_path: "/h/.Xresources".to_string(),
        content_path: "/b/files/xresources".to_string(),
        existed: true,
    };
    let backup = BackupSet {
        id: "1700000000000000000".to_string(),
        theme: "Adwaita".to_string(),
        size: 32,
        dir: String::new(),
        created_at: 1,
        files: vec![file.clone(), file],
    };
    let (size, count, id) = backup_row_parts(&backup);
    assert_eq!(size, "    size 32");
    assert_eq!(count, "    2 files");
    assert_eq!(id, "    1700000000000000000");
}
