use cursors::app::{App, BrowserView, PendingAction, StatusMessage, VisibleItem};
use cursors::state::CursorState;
use cursors::system::backup::{BackupFile, BackupSet};
use cursors::theme::{CursorTheme, ThemeSource};

fn theme(name: &str) -> CursorTheme {
    CursorTheme {
        name: name.to_string(),
        display_name: name.to_string(),
        source_dir: format!("/tmp/{name}"),
        source_kind: ThemeSource::System,
    }
}

fn app() -> App {
    App::new(
        vec![theme("mono"), theme("mono_black"), theme("custom")],
        CursorState {
            theme: "mono".to_string(),
            size: 24,
        },
    )
}

fn backup(id: &str, theme: &str, files: Vec<BackupFile>) -> BackupSet {
    BackupSet {
        id: id.to_string(),
        theme: theme.to_string(),
        size: 24,
        dir: format!("/b/{id}"),
        created_at: 1,
        files,
    }
}

#[test]
fn searches_theme_list() {
    let mut app = app();
    app.filter = "mono".to_string();
    assert_eq!(
        app.visible_items(),
        vec![VisibleItem::Theme(0), VisibleItem::Theme(1)]
    );
}

#[test]
fn filters_theme_list() {
    let mut app = app();
    app.filter = "black".to_string();
    assert_eq!(app.visible_items(), vec![VisibleItem::Theme(1)]);
}

#[test]
fn search_ignores_case_and_matches_display_name() {
    let mut app = app();
    let mut shown = theme("x-cursor");
    shown.display_name = "Fancy Pointer".to_string();
    app.themes.push(shown);
    app.filter = "FANCY".to_string();
    assert_eq!(app.visible_items(), vec![VisibleItem::Theme(3)]);
}

#[test]
fn empty_search_shows_every_theme() {
    let app = app();
    assert_eq!(
        app.visible_items(),
        vec![
            VisibleItem::Theme(0),
            VisibleItem::Theme(1),
            VisibleItem::Theme(2)
        ]
    );
}

#[test]
fn new_app_starts_ready_on_theme_page() {
    let app = app();
    assert_eq!(app.view, BrowserView::Themes);
    assert_eq!(app.size, 24);
    assert_eq!(app.selected, 0);
    assert_eq!(app.status, StatusMessage::ready());
    assert_eq!(app.status.text, "Ready");
    assert!(app.pending_action.is_none());
    assert!(!app.should_quit);
}

#[test]
fn status_constructors_mark_errors() {
    assert!(!StatusMessage::info("a".to_string()).is_error);
    let e = StatusMessage::error("b".to_string());
    assert!(e.is_error);
    assert_eq!(e.text, "b");
}

#[test]
fn backup_page_lists_nothing_as_themes() {
    let mut app = app();
    app.show_backups(vec![backup("1-a-24", "Adwaita", vec![])]);
    assert_eq!(app.view, BrowserView::Backups);
    assert!(app.visible_items().is_empty());
    assert_eq!(app.selected_item(), None);
    assert_eq!(app.visible_backups(), vec![0]);
}

#[test]
fn backup_search_matches_theme_id_and_files() {
    let mut app = app();
    let file = BackupFile {
        target: "hyprland".to_string(),
        original_path: "/home/u/.config/hypr/cursor.conf".to_string(),
        content_path: "/b/c".to_string(),
        existed: true,
    };
    app.show_backups(vec![
        backup("10-Adwaita-24", "Adwaita", vec![]),
        backup("20-Yaru-24", "Yaru", vec![file]),
    ]);
    app.filter = "yaru".to_string();
    assert_eq!(app.visible_backups(), vec![1]);
    app.filter = "HYPR".to_string();
    assert_eq!(app.visible_backups(), vec![1]);
    app.filter = "10-".to_string();
    assert_eq!(app.visible_backups(), vec![0]);
    app.filter = "nothing".to_string();
    assert!(app.visible_backups().is_empty());
    app.filter = String::new();
    app.selected = 1;
    assert_eq!(app.selected_backup_index(), Some(1));
    assert_eq!(app.selected_backup().unwrap().theme, "Yaru");
    app.selected = 2;
    assert_eq!(app.selected_backup_index(), None);
    assert!(app.selected_backup().is_none());
}

#[test]
fn moving_stops_at_the_ends() {
    let mut app = app();
    app.move_up();
    assert_eq!(app.selected, 0);
    app.move_down();
    app.move_down();
    assert_eq!(app.selected, 2);
    app.move_down();
    assert_eq!(app.selected, 2);
    app.move_up();
    assert_eq!(app.selected, 1);
    app.filter = "zzz".to_string();
    app.move_down();
    assert_eq!(app.selected, 0);
}

#[test]
fn clamp_selection_pulls_selection_back() {
    let mut app = app();
    app.selected = 7;
    app.clamp_selection();
    assert_eq!(app.selected, 2);
    app.filter = "mono".to_string();
    app.clamp_selection();
    assert_eq!(app.selected, 1);
    app.filter = "none".to_string();
    app.clamp_selection();
    assert_eq!(app.selected, 0);
}

#[test]
fn size_steps_stay_in_limits_and_undo() {
    let mut app = app();
    app.increase_size();
    assert_eq!(app.size, 25);
    app.decrease_size();
    assert_eq!(app.size, 24);
    app.size = 128;
    app.increase_size();
    assert_eq!(app.size, 128);
    app.size = 8;
    app.decrease_size();
    assert_eq!(app.size, 8);
    app.size = 0;
    app.decrease_size();
    assert_eq!(app.size, 8);
    app.reset_size();
    assert_eq!(app.size, 24);
}

#[test]
fn back_leaves_search_and_backup_page() {
    let mut app = app();
    app.filter = "mo".to_string();
    app.filter_mode = true;
    app.selected = 1;
    app.back();
    assert_eq!(app.filter, "");
    assert!(!app.filter_mode);
    assert_eq!(app.selected, 1);
    app.show_backups(vec![]);
    app.selected = 3;
    app.back();
    assert_eq!(app.view, BrowserView::Themes);
    assert_eq!(app.selected, 0);
}

#[test]
fn replace_themes_resets_page() {
    let mut app = app();
    app.show_backups(vec![]);
    app.filter = "x".to_string();
    app.selected = 2;
    app.replace_themes(vec![theme("only")]);
    assert_eq!(app.view, BrowserView::Themes);
    assert_eq!(app.selected, 0);
    assert_eq!(app.filter, "");
    assert_eq!(app.themes.len(), 1);
}

#[test]
fn selected_item_and_theme_lookup() {
    let mut app = app();
    app.selected = 1;
    let item = app.selected_item().unwrap();
    assert_eq!(item, VisibleItem::Theme(1));
    assert_eq!(app.theme_for_item(item).unwrap().name, "mono_black");
    assert!(app.theme_for_item(VisibleItem::Theme(9)).is_none());
    app.selected = 5;
    assert_eq!(app.selected_item(), None);
}

#[test]
fn clear_pending_drops_action() {
    let mut app = app();
    app.pending_action = Some(PendingAction::RestoreBackup { backup_index: 0 });
    app.clear_pending();
    assert!(app.pending_action.is_none());
}

#[test]
fn narrowing_a_search_never_adds_entries() {
    let mut a = app();
    a.filter = "mo".to_string();
    let wide = a.visible_items();
    a.filter = "MONO_".to_string();
    let narrow = a.visible_items();
    assert_eq!(wide, vec![VisibleItem::Theme(0), VisibleItem::Theme(1)]);
    assert_eq!(narrow, vec![VisibleItem::Theme(1)]);
    assert!(narrow.iter().all(|i| wide.contains(i)));
}
