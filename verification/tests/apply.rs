use cursors::apply::hyprland::{hyprland_content, setcursor_args};
use cursors::apply::{default_icon, flatpak, gtk, hyprland, runtime_theme, summarize_apply, xresources, ApplyReport};
use cursors::system::backup::BackupFile;
use cursors::system::fs::{content_is_current, update_lines_content, WriteReport};
use cursors::theme::ThemeSource;

#[test]
fn writes_expected_hyprland_config() {
    assert_eq!(
        hyprland_content("Yaru", 24),
        "# Managed by cursors\nenv = XCURSOR_THEME,Yaru\nenv = XCURSOR_SIZE,24\nenv = HYPRCURSOR_SIZE,24\nexec-once = hyprctl setcursor Yaru 24\n"
    );
}

#[test]
fn default_icon_content_inherits_theme() {
    assert_eq!(default_icon::content("Yaru"), "[Icon Theme]\nInherits=Yaru\n");
}

#[test]
fn default_icon_report_names_path_and_backup() {
    let written = WriteReport {
        path: "/h/.icons/default/index.theme".to_string(),
        backup: Some(BackupFile {
            target: "default_icon".to_string(),
            original_path: "/h/.icons/default/index.theme".to_string(),
            content_path: "/b/content".to_string(),
            existed: true,
        }),
        changed: true,
    };
    let r = default_icon::report(&written);
    assert!(r.changed && !r.skipped);
    assert_eq!(r.target, "default_icon");
    assert_eq!(r.message, "wrote /h/.icons/default/index.theme; backup default_icon");
    let same = WriteReport { path: "/p".to_string(), backup: None, changed: false };
    let r = default_icon::report(&same);
    assert!(!r.changed);
    assert_eq!(r.message, "already current");
    let fresh = WriteReport { path: "/p".to_string(), backup: None, changed: true };
    assert_eq!(default_icon::report(&fresh).message, "wrote /p");
}

#[test]
fn summary_mentions_size_or_skipped_targets() {
    let all = vec![
        ApplyReport::changed("gtk", "x".to_string()),
        ApplyReport::unchanged("hyprland", "y".to_string()),
    ];
    assert_eq!(summarize_apply("Yaru", 24, &all), "Applied Yaru at size 24");
    let some = vec![
        ApplyReport::skipped("gtk", "a".to_string()),
        ApplyReport::changed("xresources", "b".to_string()),
        ApplyReport::skipped("flatpak", "c".to_string()),
    ];
    assert_eq!(summarize_apply("Yaru", 24, &some), "Applied Yaru; skipped gtk, flatpak");
    assert_eq!(summarize_apply("A", 8, &[]), "Applied A at size 8");
}

#[test]
fn updates_xresources_lines_without_removing_unrelated_lines() {
    let prefixes = xresources::cursor_prefixes();
    let lines = xresources::cursor_lines("Yaru", 24);
    let updated = update_lines_content(
        "URxvt.font: x\nXcursor.theme: old\nXcursor.size: 12\nXft.dpi: 96\n",
        &prefixes,
        &lines,
    );
    assert_eq!(
        updated,
        "URxvt.font: x\nXft.dpi: 96\nXcursor.theme: Yaru\nXcursor.size: 24\n"
    );
    assert!(!updated.contains("Xcursor.theme: old"));
}

#[test]
fn updating_lines_twice_changes_nothing() {
    let prefixes = xresources::cursor_prefixes();
    let lines = xresources::cursor_lines("Yaru", 24);
    for existing in ["", "\n\n", "a\r\nb\n\nXcursor.size: 1", "Xcursor.theme: z\n"] {
        let once = update_lines_content(existing, &prefixes, &lines);
        let twice = update_lines_content(&once, &prefixes, &lines);
        assert_eq!(once, twice);
        assert!(content_is_current(Some(&once), &twice));
    }
    assert_eq!(update_lines_content("", &[], &[]), "\n");
}

#[test]
fn current_content_needs_equal_text() {
    assert!(content_is_current(Some("a\n"), "a\n"));
    assert!(!content_is_current(Some("a"), "a\n"));
    assert!(!content_is_current(None, ""));
}

#[test]
fn xresources_lines_and_reports() {
    assert_eq!(
        xresources::cursor_lines("Yaru", 32),
        vec!["Xcursor.theme: Yaru".to_string(), "Xcursor.size: 32".to_string()]
    );
    assert_eq!(xresources::cursor_prefixes(), vec!["Xcursor.theme:", "Xcursor.size:"]);
    assert_eq!(xresources::report(true).message, "updated Xresources cursor values");
    assert_eq!(xresources::report(false).message, "already current");
    assert_eq!(xresources::runtime_report(false, true).message, "xrdb unavailable");
    assert!(xresources::runtime_report(true, false).skipped);
    assert_eq!(xresources::runtime_report(true, false).message, "Xresources unavailable");
    assert!(xresources::runtime_report(true, true).changed);
}

#[test]
fn command_arguments_carry_theme_and_size() {
    let (theme_args, size_args) = gtk::settings_args("Yaru", 24);
    assert_eq!(theme_args, vec!["set", "org.gnome.desktop.interface", "cursor-theme", "Yaru"]);
    assert_eq!(size_args, vec!["set", "org.gnome.desktop.interface", "cursor-size", "24"]);
    let (mount, env) = flatpak::override_args("/home/u", "Yaru", 48);
    assert_eq!(mount, vec!["override", "--user", "--filesystem=/home/u/.icons:ro"]);
    assert_eq!(
        env,
        vec!["override", "--user", "--env=XCURSOR_THEME=Yaru", "--env=XCURSOR_SIZE=48"]
    );
    assert_eq!(setcursor_args("Yaru", 24), vec!["setcursor", "Yaru", "24"]);
}

#[test]
fn tool_reports_skip_when_missing() {
    assert!(gtk::report(false).skipped);
    assert_eq!(gtk::report(false).message, "gsettings unavailable");
    assert_eq!(gtk::report(true).message, "updated gsettings cursor values");
    assert!(flatpak::report(false).skipped);
    assert_eq!(flatpak::report(true).message, "updated flatpak cursor overrides");
    assert_eq!(hyprland::runtime_report(false).message, "hyprctl unavailable");
    assert!(hyprland::runtime_report(true).changed);
    assert_eq!(hyprland::report(true).message, "updated Hyprland cursor config");
    assert_eq!(hyprland::report(false).message, "already current");
}

#[test]
fn runtime_theme_lives_in_user_icons() {
    let t = runtime_theme("Adwaita", "/home/u");
    assert_eq!(t.name, "Adwaita");
    assert_eq!(t.display_name, "Adwaita");
    assert_eq!(t.source_dir, "/home/u/.icons/Adwaita");
    assert_eq!(t.source_kind, ThemeSource::Icons);
}

#[test]
fn written_default_icon_file_is_read_as_cursor_theme() {
    for name in ["Yaru", "", "odd\r", "two\nlines"] {
        assert!(cursors::theme::index_declares_inherits(&default_icon::content(name)));
    }
}

#[test]
fn updating_with_carriage_return_lines_twice_changes_nothing() {
    let prefixes = ["Xcursor.theme:"];
    let lines = vec!["Xcursor.theme: a\r".to_string()];
    let once = update_lines_content("k\nXcursor.theme: old\n", &prefixes, &lines);
    assert_eq!(once, "k\nXcursor.theme: a\r\n");
    assert_eq!(update_lines_content(&once, &prefixes, &lines), once);
}
