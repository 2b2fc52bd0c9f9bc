use cursors::config::{clamp_size, Paths, DEFAULT_SIZE, MAX_SIZE, MIN_SIZE};
use cursors::state::state_from_outputs;
use cursors::text::{
    contains, join_path, lex_less, parse_u128, parse_u32, starts_with, str_eq, trim,
    trim_matches_char, trim_start, u128_to_string, u32_to_string,
};

#[test]
fn clamps_cursor_size() {
    assert_eq!(clamp_size(1), MIN_SIZE);
    assert_eq!(clamp_size(24), 24);
    assert_eq!(clamp_size(999), MAX_SIZE);
}

#[test]
fn clamping_twice_changes_nothing() {
    for s in [0u32, 7, 8, 50, 128, 129, u32::MAX] {
        assert_eq!(clamp_size(clamp_size(s)), clamp_size(s));
    }
}

#[test]
fn paths_live_under_home() {
    let p = Paths::from_home("/home/u".to_string());
    assert_eq!(
        p.icon_dirs,
        vec![
            "/home/u/.local/share/icons".to_string(),
            "/home/u/.icons".to_string(),
            "/usr/share/icons".to_string()
        ]
    );
    assert_eq!(p.xresources, "/home/u/.Xresources");
    assert_eq!(p.hypr_cursor_conf, "/home/u/.config/hypr/cursor.conf");
    assert_eq!(p.default_icon_theme, "/home/u/.icons/default/index.theme");
    assert_eq!(p.backup_dir, "/home/u/.local/state/cursors/backups");
    assert_eq!(p.home, "/home/u");
}

#[test]
fn path_join_follows_path_rules() {
    assert_eq!(join_path("/a/", "b"), "/a/b");
    assert_eq!(join_path("/a", "b"), "/a/b");
    assert_eq!(join_path("", "b"), "b");
    assert_eq!(join_path("/a", "/c"), "/c");
}

#[test]
fn decimal_text_and_parse() {
    assert_eq!(u32_to_string(0), "0");
    assert_eq!(u32_to_string(24), "24");
    assert_eq!(u32_to_string(u32::MAX), u32::MAX.to_string());
    assert_eq!(u128_to_string(u128::MAX), u128::MAX.to_string());
    assert_eq!(parse_u32("24"), Some(24));
    assert_eq!(parse_u32("+7"), Some(7));
    assert_eq!(parse_u32("007"), Some(7));
    assert_eq!(parse_u32(""), None);
    assert_eq!(parse_u32("+"), None);
    assert_eq!(parse_u32("-1"), None);
    assert_eq!(parse_u32("1a"), None);
    assert_eq!(parse_u32("4294967295"), Some(u32::MAX));
    assert_eq!(parse_u32("4294967296"), None);
    assert_eq!(parse_u128("340282366920938463463374607431768211455"), Some(u128::MAX));
    assert_eq!(parse_u128("340282366920938463463374607431768211456"), None);
}

#[test]
fn parse_agrees_with_std() {
    for s in ["", "0", "12", "+3", "++3", "-0", " 1", "99999999999", "4294967295", "x"] {
        assert_eq!(parse_u32(s), s.parse::<u32>().ok(), "{s:?}");
    }
}

#[test]
fn trimming_agrees_with_std() {
    for s in ["", "  a b  ", "\t\n x\u{3000}", "'Yaru'", "''", "\u{a0}y\u{85}"] {
        assert_eq!(trim(s), s.trim());
        assert_eq!(trim_start(s), s.trim_start());
        assert_eq!(trim_matches_char(s, '\''), s.trim_matches('\''));
    }
}

#[test]
fn substring_and_prefix_search() {
    assert!(contains("mono_black", "black"));
    assert!(contains("abc", ""));
    assert!(!contains("ab", "abc"));
    assert!(!contains("mono", "x"));
    assert!(starts_with("Yaru-blue", "Yaru"));
    assert!(!starts_with("Ya", "Yaru"));
}

#[test]
fn string_order_and_equality_agree_with_std() {
    let words = ["", "a", "ab", "b", "B", "ä", "abc"];
    for a in words {
        for b in words {
            assert_eq!(lex_less(a, b), a < b, "{a:?} {b:?}");
            assert_eq!(str_eq(a, b), a == b);
        }
    }
}

#[test]
fn current_state_reads_gsettings_output() {
    let st = state_from_outputs(Some("'Yaru'".to_string()), Some("32".to_string()));
    assert_eq!(st.theme, "Yaru");
    assert_eq!(st.size, 32);
    let st = state_from_outputs(Some("''".to_string()), Some("big".to_string()));
    assert_eq!(st.theme, "unknown");
    assert_eq!(st.size, DEFAULT_SIZE);
    let st = state_from_outputs(None, None);
    assert_eq!(st.theme, "unknown");
    assert_eq!(st.size, DEFAULT_SIZE);
}
