use cursors::error::CursorError;
use cursors::system::backup::{
    backup_file_from, backup_set_from, created_at_from_id, existed_text, sanitize_target,
    sort_files_by_target, sort_newest_first, BackupFile, BackupSession, BackupSet,
};
use cursors::system::command::{probe_script, shell_escape};

fn set(id: &str, created_at: u128) -> BackupSet {
    BackupSet {
        id: id.to_string(),
        theme: "t".to_string(),
        size: 24,
        dir: String::new(),
        created_at,
        files: vec![],
    }
}

fn file(target: &str, path: &str) -> BackupFile {
    BackupFile {
        target: target.to_string(),
        original_path: path.to_string(),
        content_path: String::new(),
        existed: true,
    }
}

#[test]
fn sanitizes_targets() {
    assert_eq!(sanitize_target("Yaru dark/π"), "Yaru_dark__");
    assert_eq!(sanitize_target("a-b_C9"), "a-b_C9");
    let once = sanitize_target("x y.z");
    assert_eq!(sanitize_target(&once), once);
}

#[test]
fn session_id_holds_time_theme_and_size() {
    let s = BackupSession::at("/h/backups", "Yaru dark", 24, 1700);
    assert_eq!(s.id, "1700-Yaru_dark-24");
    assert_eq!(s.dir, "/h/backups/1700-Yaru_dark-24");
    assert_eq!(created_at_from_id(&s.id), 1700);
}

#[test]
fn new_session_reads_the_clock() {
    let s = BackupSession::new("/b", "Adwaita", 24).unwrap();
    assert!(s.id.ends_with("-Adwaita-24"));
    let t = created_at_from_id(&s.id);
    assert!(t > 0);
    assert_eq!(s.id, format!("{t}-Adwaita-24"));
    assert_eq!(s.dir, format!("/b/{}", s.id));
    assert_eq!(CursorError::ClockBeforeEpoch.message(), "system clock is before unix epoch");
}

#[test]
fn created_at_defaults_to_zero() {
    assert_eq!(created_at_from_id("12-x-24"), 12);
    assert_eq!(created_at_from_id("abc-x"), 0);
    assert_eq!(created_at_from_id("123"), 0);
    assert_eq!(created_at_from_id("-x"), 0);
}

#[test]
fn reads_restore_point_metadata() {
    let b = backup_set_from(
        "99-Yaru-24".to_string(),
        Some(" Yaru\n".to_string()),
        Some("24\n".to_string()),
        "/b/99-Yaru-24".to_string(),
        vec![],
    );
    assert_eq!(b.theme, "Yaru");
    assert_eq!(b.size, 24);
    assert_eq!(b.created_at, 99);
    let b = backup_set_from("x".to_string(), None, Some("big".to_string()), String::new(), vec![]);
    assert_eq!(b.theme, "unknown");
    assert_eq!(b.size, 0);
    assert_eq!(b.created_at, 0);
}

#[test]
fn reads_saved_file_metadata() {
    let f = backup_file_from(
        Some("hyprland\n".to_string()),
        Some("/h/cursor.conf\n".to_string()),
        "/b/c".to_string(),
        Some(format!("{}\n", existed_text(false))),
        true,
    );
    assert_eq!(f.target, "hyprland");
    assert_eq!(f.original_path, "/h/cursor.conf");
    assert!(!f.existed);
    let f = backup_file_from(None, None, "/b/c".to_string(), None, true);
    assert_eq!(f.target, "unknown");
    assert_eq!(f.original_path, "unknown");
    assert!(f.existed);
    assert_eq!(existed_text(true), "true");
}

#[test]
fn lists_newest_first_keeping_ties_in_order() {
    let sorted = sort_newest_first(vec![set("a", 1), set("b", 3), set("c", 1), set("d", 3), set("e", 2)]);
    let ids: Vec<&str> = sorted.iter().map(|s| s.id.as_str()).collect();
    assert_eq!(ids, vec!["b", "d", "e", "a", "c"]);
    assert!(sort_newest_first(vec![]).is_empty());
}

#[test]
fn sorts_files_by_target_keeping_ties_in_order() {
    let sorted = sort_files_by_target(vec![
        file("xresources", "1"),
        file("hyprland", "2"),
        file("default_icon", "3"),
        file("hyprland", "4"),
    ]);
    let paths: Vec<&str> = sorted.iter().map(|f| f.original_path.as_str()).collect();
    assert_eq!(paths, vec!["3", "2", "4", "1"]);
}

#[test]
fn shell_words() {
    assert_eq!(shell_escape("gsettings"), "gsettings");
    assert_eq!(shell_escape("a b"), "'a b'");
    assert_eq!(shell_escape("it's"), "'it'\"'\"'s'");
    assert_eq!(probe_script("xrdb"), "command -v xrdb");
}
