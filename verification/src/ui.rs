//! What the screen shows that does not depend on how it is drawn: the
//! placement of pop-ups, the search line, the confirmation question and the
//! highlighted row.

use vstd::prelude::*;

use crate::app::{App, BrowserView, PendingAction};
use crate::system::backup::BackupSet;
use crate::text::{decimal, str_eq, u128_to_string, u32_to_string};

verus! {

/// A rectangle of terminal cells.
#[derive(Debug, Clone, Copy, PartialEq, Eq, Structural)]
pub struct Area {
    pub x: u16,
    pub y: u16,
    pub width: u16,
    pub height: u16,
}

/// A rectangle of at most `width` by `height` cells, centred in `area`.
pub fn centered_rect(width: u16, height: u16, area: Area) -> (r: Area)
    requires
        area.x + area.width <= u16::MAX,
        area.y + area.height <= u16::MAX,
    ensures
        r.width == (if width < area.width { width } else { area.width }),
        r.height == (if height < area.height { height } else { area.height }),
        r.x == area.x + (area.width - r.width) / 2,
        r.y == area.y + (area.height - r.height) / 2,
        r.x + r.width <= area.x + area.width,
        r.y + r.height <= area.y + area.height,
{
    let w = if width < area.width { width } else { area.width };
    let h = if height < area.height { height } else { area.height };
    Area {
        x: area.x + area.width.saturating_sub(w) / 2,
        y: area.y + area.height.saturating_sub(h) / 2,
        width: w,
        height: h,
    }
}

/// The name of the page shown.
pub fn view_name(view: BrowserView) -> (n: &'static str)
    ensures
        n@ == (if view == BrowserView::Themes { "themes"@ } else { "backups"@ }),
{
    match view {
        BrowserView::Themes => "themes",
        BrowserView::Backups => "backups",
    }
}

/// The search part of the status line: what is typed while searching, the
/// search in force, or how to start one.
pub fn search_state(filter_mode: bool, filter: &str) -> (s: String)
    ensures
        s@ == (if filter_mode {
            "searching "@ + filter@
        } else if filter@.len() == 0 {
            "/ search"@
        } else {
            "search "@ + filter@
        }),
{
    if filter_mode {
        let mut s = String::from_str("searching ");
        s.append(filter);
        s
    } else if filter.unicode_len() == 0 {
        String::from_str("/ search")
    } else {
        let mut s = String::from_str("search ");
        s.append(filter);
        s
    }
}

/// The question asked before the pending action runs, if one is pending.
pub fn confirmation_message(app: &App) -> (m: Option<String>)
    ensures
        match app.pending_action {
            None => m is None,
            Some(PendingAction::ApplyTheme { theme_index, size }) => m matches Some(t) && t@ == (
            if theme_index < app.themes@.len() {
                "Apply "@ + app.themes@[theme_index as int].name@ + " @ "@ + decimal(size as nat)
                    + "?"@
            } else {
                "Apply selected theme?"@
            }),
            Some(PendingAction::RestoreBackup { backup_index }) => m matches Some(t) && t@ == (
            if backup_index < app.backups@.len() {
                "Restore "@ + app.backups@[backup_index as int].theme@ + " @ "@ + decimal(
                    app.backups@[backup_index as int].size as nat,
                ) + "?"@
            } else {
                "Restore selected backup?"@
            }),
        },
{
    match app.pending_action {
        None => None,
        Some(PendingAction::ApplyTheme { theme_index, size }) => {
            if theme_index < app.themes.len() {
                let mut t = String::from_str("Apply ");
                t.append(app.themes[theme_index].name.as_str());
                t.append(" @ ");
                t.append(u32_to_string(size).as_str());
                t.append("?");
                Some(t)
            } else {
                Some(String::from_str("Apply selected theme?"))
            }
        },
        Some(PendingAction::RestoreBackup { backup_index }) => {
            if backup_index < app.backups.len() {
                let mut t = String::from_str("Restore ");
                t.append(app.backups[backup_index].theme.as_str());
                t.append(" @ ");
                t.append(u32_to_string(app.backups[backup_index].size).as_str());
                t.append("?");
                Some(t)
            } else {
                Some(String::from_str("Restore selected backup?"))
            }
        },
    }
}

/// The row the list highlights: the selection, or the last row where the
/// selection lies past it.
pub fn highlighted_row(selected: usize, rows: usize) -> (r: usize)
    requires
        rows > 0,
    ensures
        r == (if selected < rows - 1 { selected } else { (rows - 1) as usize }),
        r < rows,
{
    if selected < rows - 1 {
        selected
    } else {
        rows - 1
    }
}

/// Whether `name` is the theme in effect; its row is marked and coloured.
pub fn is_current_theme(app: &App, name: &str) -> (r: bool)
    ensures
        r == (app.current.theme@ == name@),
{
    str_eq(app.current.theme.as_str(), name)
}

/// The mark in front of a theme's row: a star for the theme in effect.
pub fn current_marker(is_current: bool) -> (m: &'static str)
    ensures
        m@ == (if is_current { "* "@ } else { "  "@ }),
{
    if is_current {
        "* "
    } else {
        "  "
    }
}

/// What follows a saved file's path: a note where the file did not exist
/// when the restore point was made.
pub fn missing_suffix(existed: bool) -> (m: &'static str)
    ensures
        m@ == (if existed { ""@ } else { " (missing)"@ }),
{
    if existed {
        ""
    } else {
        " (missing)"
    }
}

/// The theme count on the status line.
pub fn theme_count_text(count: usize) -> (t: String)
    ensures
        t@ == decimal(count as nat) + " themes"@,
{
    let mut t = u128_to_string(count as u128);
    t.append(" themes");
    t
}

/// The three muted parts of a restore point's row: its size, how many
/// files it holds, and its id, each set off by four spaces.
pub fn backup_row_parts(backup: &BackupSet) -> (parts: (String, String, String))
    ensures
        parts.0@ == "    size "@ + decimal(backup.size as nat),
        parts.1@ == "    "@ + decimal(backup.files@.len()) + " files"@,
        parts.2@ == "    "@ + backup.id@,
{
    let mut size = String::from_str("    size ");
    size.append(u32_to_string(backup.size).as_str());
    let mut count = String::from_str("    ");
    count.append(u128_to_string(backup.files.len() as u128).as_str());
    count.append(" files");
    let mut id = String::from_str("    ");
    id.append(backup.id.as_str());
    (size, count, id)
}

} // verus!
