use cursors::theme::{
    collect_themes, display_name_from_index, family_name, index_declares_inherits, CursorTheme,
    ThemeSource,
};

fn found(name: &str, dir: &str, kind: ThemeSource) -> CursorTheme {
    CursorTheme {
        name: name.to_string(),
        display_name: name.to_string(),
        source_dir: dir.to_string(),
        source_kind: kind,
    }
}

#[test]
fn groups_theme_families() {
    assert_eq!(family_name("Yaru-blue-dark"), "Yaru");
    assert_eq!(family_name("mono_black"), "mono");
    assert_eq!(family_name("black-point-outside"), "black");
}

#[test]
fn family_edge_cases() {
    assert_eq!(family_name("Breeze_Snow"), "breeze");
    assert_eq!(family_name("breeze"), "breeze");
    assert_eq!(family_name("-odd"), "-odd");
    assert_eq!(family_name(""), "");
    assert_eq!(family_name("plain"), "plain");
    for name in ["Yaru-blue-dark", "mono_black", "Breeze_Snow", "-odd", "a-b_c"] {
        let f = family_name(name);
        assert_eq!(family_name(&f), f);
    }
}

#[test]
fn source_labels() {
    assert_eq!(ThemeSource::LocalShare.label(), "~/.local/share/icons");
    assert_eq!(ThemeSource::Icons.label(), "~/.icons");
    assert_eq!(ThemeSource::System.label(), "/usr/share/icons");
    assert_eq!(ThemeSource::for_root(0), ThemeSource::LocalShare);
    assert_eq!(ThemeSource::for_root(1), ThemeSource::Icons);
    assert_eq!(ThemeSource::for_root(2), ThemeSource::System);
    assert_eq!(ThemeSource::for_root(9), ThemeSource::System);
}

#[test]
fn deduplicates_by_source_priority() {
    let list = vec![
        found("shared", "/h/.local/share/icons/shared", ThemeSource::LocalShare),
        found("zeta", "/h/.local/share/icons/zeta", ThemeSource::LocalShare),
        found("shared", "/h/.icons/shared", ThemeSource::Icons),
        found("Adwaita", "/usr/share/icons/Adwaita", ThemeSource::System),
        found("shared", "/usr/share/icons/shared", ThemeSource::System),
    ];
    let merged = collect_themes(&list);
    let names: Vec<&str> = merged.iter().map(|t| t.name.as_str()).collect();
    assert_eq!(names, vec!["Adwaita", "shared", "zeta"]);
    let shared = merged.iter().find(|t| t.name == "shared").unwrap();
    assert_eq!(shared.source_kind, ThemeSource::LocalShare);
    assert_eq!(shared.source_dir, "/h/.local/share/icons/shared");
}

#[test]
fn merging_nothing_gives_nothing() {
    assert!(collect_themes(&Vec::new()).is_empty());
}

#[test]
fn index_inherits_makes_a_cursor_theme() {
    assert!(index_declares_inherits("[Icon Theme]\nInherits=Adwaita\n"));
    assert!(index_declares_inherits("[Icon Theme]\r\n   Inherits=x"));
    assert!(!index_declares_inherits("[Icon Theme]\nName=Foo\n"));
    assert!(!index_declares_inherits(""));
    assert!(!index_declares_inherits("X-Inherits=y"));
}

#[test]
fn index_display_name() {
    assert_eq!(
        display_name_from_index("[Icon Theme]\nName=Fancy Pointer\r\nName=Other\n"),
        Some("Fancy Pointer".to_string())
    );
    assert_eq!(display_name_from_index("[Icon Theme]\n Name=No\n"), None);
    assert_eq!(display_name_from_index("Name="), Some(String::new()));
}
