//! What a key press does to the browser: the state it leads to and the work
//! outside the browser (reading themes or restore points, opening a
//! directory, applying or restoring) that the caller then carries out.

use vstd::prelude::*;

use crate::app::{
    lemma_matching_backups_in_range, App, AppModel, BrowserView, PendingAction, StatusMessage,
    VisibleItem,
};
use crate::config::{spec_clamp_size, DEFAULT_SIZE};
use crate::apply::{spec_summary, summarize_apply, ApplyReport};
use crate::state::CursorState;
use crate::system::backup::BackupSet;
use crate::text::{decimal, pop_char, push_char, u128_to_string, u32_to_string};
use crate::theme::CursorTheme;

verus! {

/// The key of a key press, as far as the browser tells keys apart.
#[derive(Debug, Clone, Copy, PartialEq, Eq, Structural)]
pub enum Key {
    Char(char),
    Enter,
    Esc,
    Backspace,
    Up,
    Down,
    Other,
}

/// A key press: the key, and whether Control was held.
#[derive(Debug, Clone, Copy, PartialEq, Eq, Structural)]
pub struct KeyPress {
    pub key: Key,
    pub ctrl: bool,
}

/// Work a key press asks for that the browser cannot do itself.
#[derive(Debug, Clone, Copy, PartialEq, Eq, Structural)]
pub enum Effect {
    /// Nothing more to do.
    Nothing,
    /// Search the theme roots again and pass the themes to `rescan`.
    Rescan,
    /// List the restore points and pass them to `show_backups`.
    LoadBackups,
    /// Open the directory of the theme at this position, then report with `finish_open_dir`.
    OpenDir { theme_index: usize },
    /// Apply the theme at this position at this size, then report with `apply_theme_now`.
    ApplyTheme { theme_index: usize, size: u32 },
    /// Restore the restore point at this position, then report with `restore_backup_now`.
    RestoreBackup { backup_index: usize },
}

/// The state with a status message.
pub open spec fn with_status(m: AppModel, text: Seq<char>, is_error: bool) -> AppModel {
    AppModel { status_text: text, status_is_error: is_error, ..m }
}

/// The text that asks to confirm applying a theme.
pub open spec fn confirm_apply_text(name: Seq<char>, size: u32) -> Seq<char> {
    "Confirm applying "@ + name + " @ "@ + decimal(size as nat)
}

/// The text that asks to confirm restoring a restore point.
pub open spec fn confirm_restore_text(id: Seq<char>) -> Seq<char> {
    "Confirm restoring "@ + id
}

/// The selection moved one entry down, stopping at the last entry.
pub open spec fn moved_down(m: AppModel) -> AppModel {
    AppModel {
        selected: if m.visible_count() == 0 {
            0
        } else if m.selected + 1 < m.visible_count() {
            (m.selected + 1) as usize
        } else {
            (m.visible_count() - 1) as usize
        },
        ..m
    }
}

/// The selection moved one entry up, stopping at the first entry.
pub open spec fn moved_up(m: AppModel) -> AppModel {
    AppModel { selected: if m.selected == 0 { 0 } else { (m.selected - 1) as usize }, ..m }
}

/// Leaving the search, and the backup page.
pub open spec fn went_back(m: AppModel) -> AppModel {
    AppModel {
        filter: Seq::<char>::empty(),
        filter_mode: false,
        view: BrowserView::Themes,
        selected: if m.view == BrowserView::Backups { 0 } else { m.selected },
        ..m
    }
}

/// The size to apply made one larger, within the limits.
pub open spec fn size_increased(m: AppModel) -> AppModel {
    AppModel {
        size: spec_clamp_size(if m.size == u32::MAX { u32::MAX } else { (m.size + 1) as u32 }),
        ..m
    }
}

/// The size to apply made one smaller, within the limits.
pub open spec fn size_decreased(m: AppModel) -> AppModel {
    AppModel { size: spec_clamp_size(if m.size == 0 { 0 } else { (m.size - 1) as u32 }), ..m }
}

/// Asking to confirm applying the selected theme, if one is selected.
pub open spec fn entered(m: AppModel) -> AppModel {
    match m.selected_item() {
        Some(VisibleItem::Theme(i)) => if i < m.themes.len() {
            AppModel {
                pending_action: Some(PendingAction::ApplyTheme { theme_index: i, size: m.size }),
                status_text: confirm_apply_text(m.themes[i as int].name@, m.size),
                status_is_error: false,
                ..m
            }
        } else {
            m
        },
        None => m,
    }
}

/// Asking to confirm restoring the selected restore point, or saying why not.
pub open spec fn restore_requested(m: AppModel) -> AppModel {
    if m.view != BrowserView::Backups {
        with_status(m, "Press b to view backups"@, false)
    } else {
        match m.selected_backup_index() {
            Some(i) => if i < m.backups.len() {
                AppModel {
                    pending_action: Some(PendingAction::RestoreBackup { backup_index: i }),
                    status_text: confirm_restore_text(m.backups[i as int].id@),
                    status_is_error: false,
                    ..m
                }
            } else {
                with_status(m, "No backup selected"@, false)
            },
            None => with_status(m, "No backup selected"@, false),
        }
    }
}

/// Opening the selected theme's directory: the theme to open, or a message why not.
pub open spec fn open_requested(m: AppModel) -> (AppModel, Option<usize>) {
    match m.selected_item() {
        Some(VisibleItem::Theme(i)) => if i < m.themes.len() {
            (m, Some(i))
        } else {
            (with_status(m, "Select a theme first"@, false), None)
        },
        None => (with_status(m, "Select a theme to open its directory"@, false), None),
    }
}

/// A key typed while the search text is being edited.
pub open spec fn search_key(m: AppModel, k: KeyPress) -> AppModel {
    let edited = match k.key {
        Key::Esc | Key::Enter => AppModel { filter_mode: false, ..m },
        Key::Backspace => AppModel {
            filter: if m.filter.len() > 0 { m.filter.drop_last() } else { m.filter },
            ..m
        },
        Key::Char(c) => if !k.ctrl { AppModel { filter: m.filter.push(c), ..m } } else { m },
        _ => m,
    };
    edited.clamped()
}

/// A key pressed while an action waits for confirmation.
pub open spec fn confirmation_key(m: AppModel, k: KeyPress) -> (AppModel, Effect) {
    match k.key {
        Key::Enter | Key::Char('y') | Key::Char('Y') => {
            let taken = AppModel { pending_action: None, ..m };
            match m.pending_action {
                Some(PendingAction::ApplyTheme { theme_index, size }) => if theme_index
                    < m.themes.len() {
                    (taken, Effect::ApplyTheme { theme_index, size })
                } else {
                    (with_status(taken, "Selected theme is no longer available"@, true), Effect::Nothing)
                },
                Some(PendingAction::RestoreBackup { backup_index }) => if backup_index
                    < m.backups.len() {
                    (taken, Effect::RestoreBackup { backup_index })
                } else {
                    (
                        with_status(taken, "Selected backup is no longer available"@, true),
                        Effect::Nothing,
                    )
                },
                None => (m, Effect::Nothing),
            }
        },
        Key::Esc | Key::Char('n') | Key::Char('N') => (
            with_status(AppModel { pending_action: None, ..m }, "Cancelled"@, false),
            Effect::Nothing,
        ),
        _ => (m, Effect::Nothing),
    }
}

/// A key pressed on a page, outside the search and with nothing pending.
pub open spec fn page_key(m: AppModel, k: KeyPress) -> (AppModel, Effect) {
    match k.key {
        Key::Char('r') => (m, Effect::Rescan),
        Key::Char('b') => (m, Effect::LoadBackups),
        Key::Char(' ') => {
            let (opened, target) = open_requested(m);
            match target {
                Some(i) => (opened.clamped(), Effect::OpenDir { theme_index: i }),
                None => (opened.clamped(), Effect::Nothing),
            }
        },
        _ => {
            let next = match k.key {
                Key::Char('q') => AppModel { should_quit: true, ..m },
                Key::Down | Key::Char('j') => moved_down(m),
                Key::Up | Key::Char('k') => moved_up(m),
                Key::Char('/') => AppModel { filter_mode: true, ..m },
                Key::Char('?') => AppModel { show_help: !m.show_help, ..m },
                Key::Char('+') | Key::Char('=') => size_increased(m),
                Key::Char('-') => size_decreased(m),
                Key::Char('d') => AppModel { size: DEFAULT_SIZE, ..m },
                Key::Char('u') => restore_requested(m),
                Key::Esc | Key::Backspace | Key::Char('h') => went_back(m),
                Key::Char('l') => entered(m),
                Key::Enter => if m.view == BrowserView::Backups {
                    restore_requested(m)
                } else {
                    entered(m)
                },
                _ => m,
            };
            (next.clamped(), Effect::Nothing)
        },
    }
}

/// What a key press does: Control-C quits; any key but `?` closes the help;
/// a pending action takes only confirmation keys; the search takes text;
/// otherwise the page's keys apply.
pub open spec fn key_transition(m: AppModel, k: KeyPress) -> (AppModel, Effect) {
    if k.ctrl && k.key == Key::Char('c') {
        (AppModel { should_quit: true, ..m }, Effect::Nothing)
    } else if m.show_help && k.key != Key::Char('?') {
        (AppModel { show_help: false, ..m }, Effect::Nothing)
    } else if m.pending_action is Some {
        confirmation_key(m, k)
    } else if m.filter_mode {
        (search_key(m, k), Effect::Nothing)
    } else {
        page_key(m, k)
    }
}

fn info_message(text: &str) -> (m: StatusMessage)
    ensures
        m.text@ == text@,
        !m.is_error,
{
    StatusMessage::info(String::from_str(text))
}

fn error_message(text: &str) -> (m: StatusMessage)
    ensures
        m.text@ == text@,
        m.is_error,
{
    StatusMessage::error(String::from_str(text))
}

/// Asks to confirm applying the selected theme at the size chosen, if a
/// theme is selected.
pub fn enter_or_apply(app: &mut App)
    ensures
        final(app)@ == entered(old(app)@),
{
    match app.selected_item() {
        Some(item) => {
            let VisibleItem::Theme(index) = item;
            if index < app.themes.len() {
                let mut text = String::from_str("Confirm applying ");
                text.append(app.themes[index].name.as_str());
                text.append(" @ ");
                text.append(u32_to_string(app.size).as_str());
                app.pending_action = Some(PendingAction::ApplyTheme { theme_index: index, size: app.size });
                app.status = StatusMessage::info(text);
            }
        },
        None => {},
    }
}

/// Asks to confirm restoring the selected restore point, or says why it cannot.
pub fn restore_selected_backup(app: &mut App)
    ensures
        final(app)@ == restore_requested(old(app)@),
{
    if app.view != BrowserView::Backups {
        app.status = info_message("Press b to view backups");
        return;
    }
    match app.selected_backup_index() {
        Some(index) => {
            if index < app.backups.len() {
                let mut text = String::from_str("Confirm restoring ");
                text.append(app.backups[index].id.as_str());
                app.pending_action = Some(PendingAction::RestoreBackup { backup_index: index });
                app.status = StatusMessage::info(text);
            } else {
                app.status = info_message("No backup selected");
            }
        },
        None => {
            app.status = info_message("No backup selected");
        },
    }
}

/// The theme whose directory to open, or a message why there is none.
pub fn open_selected_dir(app: &mut App) -> (target: Option<usize>)
    ensures
        (final(app)@, target) == open_requested(old(app)@),
{
    match app.selected_item() {
        Some(item) => {
            let VisibleItem::Theme(index) = item;
            if index < app.themes.len() {
                Some(index)
            } else {
                app.status = info_message("Select a theme first");
                None
            }
        },
        None => {
            app.status = info_message("Select a theme to open its directory");
            None
        },
    }
}

fn handle_search_key(key: KeyPress, app: &mut App)
    ensures
        final(app)@ == search_key(old(app)@, key),
{
    match key.key {
        Key::Esc | Key::Enter => {
            app.filter_mode = false;
        },
        Key::Backspace => {
            pop_char(&mut app.filter);
        },
        Key::Char(c) => {
            if !key.ctrl {
                push_char(&mut app.filter, c);
            }
        },
        _ => {},
    }
    app.clamp_selection();
}

fn handle_confirmation_key(key: KeyPress, app: &mut App) -> (effect: Effect)
    requires
        old(app).pending_action is Some,
    ensures
        (final(app)@, effect) == confirmation_key(old(app)@, key),
{
    match key.key {
        Key::Enter | Key::Char('y') | Key::Char('Y') => {
            let action = app.pending_action;
            app.pending_action = None;
            match action {
                Some(PendingAction::ApplyTheme { theme_index, size }) => {
                    if theme_index < app.themes.len() {
                        Effect::ApplyTheme { theme_index, size }
                    } else {
                        app.status = error_message("Selected theme is no longer available");
                        Effect::Nothing
                    }
                },
                Some(PendingAction::RestoreBackup { backup_index }) => {
                    if backup_index < app.backups.len() {
                        Effect::RestoreBackup { backup_index }
                    } else {
                        app.status = error_message("Selected backup is no longer available");
                        Effect::Nothing
                    }
                },
                None => Effect::Nothing,
            }
        },
        Key::Esc | Key::Char('n') | Key::Char('N') => {
            app.clear_pending();
            app.status = info_message("Cancelled");
            Effect::Nothing
        },
        _ => Effect::Nothing,
    }
}

/// Handles one key press: changes the browser as `key_transition` says and
/// returns the work that is left for the caller.
pub fn handle_key(key: KeyPress, app: &mut App) -> (effect: Effect)
    ensures
        (final(app)@, effect) == key_transition(old(app)@, key),
{
    if key.ctrl && key.key == Key::Char('c') {
        app.should_quit = true;
        return Effect::Nothing;
    }
    if app.show_help && key.key != Key::Char('?') {
        app.show_help = false;
        return Effect::Nothing;
    }
    if app.pending_action.is_some() {
        return handle_confirmation_key(key, app);
    }
    if app.filter_mode {
        handle_search_key(key, app);
        return Effect::Nothing;
    }
    match key.key {
        Key::Char('r') => {
            return Effect::Rescan;
        },
        Key::Char('b') => {
            return Effect::LoadBackups;
        },
        Key::Char(' ') => {
            let target = open_selected_dir(app);
            app.clamp_selection();
            return match target {
                Some(i) => Effect::OpenDir { theme_index: i },
                None => Effect::Nothing,
            };
        },
        Key::Char('q') => {
            app.should_quit = true;
        },
        Key::Down | Key::Char('j') => app.move_down(),
        Key::Up | Key::Char('k') => app.move_up(),
        Key::Char('/') => {
            app.filter_mode = true;
        },
        Key::Char('?') => {
            app.show_help = !app.show_help;
        },
        Key::Char('+') | Key::Char('=') => app.increase_size(),
        Key::Char('-') => app.decrease_size(),
        Key::Char('d') => app.reset_size(),
        Key::Char('u') => restore_selected_backup(app),
        Key::Esc | Key::Backspace | Key::Char('h') => {
            app.back();
            assert(app.filter@ =~= Seq::<char>::empty());
        },
        Key::Char('l') => enter_or_apply(app),
        Key::Enter => {
            if app.view == BrowserView::Backups {
                restore_selected_backup(app);
            } else {
                enter_or_apply(app);
            }
        },
        _ => {},
    }
    app.clamp_selection();
    Effect::Nothing
}


/// Shows freshly found themes on the theme page and says how many there are.
pub fn rescan(app: &mut App, themes: Vec<CursorTheme>)
    ensures
        final(app)@ == with_status(
            AppModel {
                themes: themes@,
                view: BrowserView::Themes,
                selected: 0,
                filter: Seq::<char>::empty(),
                filter_mode: false,
                ..old(app)@
            },
            "Rescanned "@ + decimal(themes@.len()) + " cursor themes"@,
            false,
        ),
{
    let count = themes.len();
    app.replace_themes(themes);
    let mut text = String::from_str("Rescanned ");
    text.append(u128_to_string(count as u128).as_str());
    text.append(" cursor themes");
    app.status = StatusMessage::info(text);
    assert(app.filter@ =~= Seq::<char>::empty());
}

/// Shows the restore points on the backup page and says how many there are.
pub fn show_backups(app: &mut App, backups: Vec<BackupSet>)
    ensures
        final(app)@ == with_status(
            AppModel {
                backups: backups@,
                view: BrowserView::Backups,
                selected: 0,
                filter: Seq::<char>::empty(),
                filter_mode: false,
                ..old(app)@
            },
            "Loaded "@ + decimal(backups@.len()) + " backups"@,
            false,
        ),
{
    let count = backups.len();
    app.show_backups(backups);
    let mut text = String::from_str("Loaded ");
    text.append(u128_to_string(count as u128).as_str());
    text.append(" backups");
    app.status = StatusMessage::info(text);
    assert(app.filter@ =~= Seq::<char>::empty());
}

/// Reports opening a theme's directory: opened, or `xdg-open` missing.
pub fn finish_open_dir(app: &mut App, theme_index: usize, opened: bool)
    requires
        theme_index < old(app).themes@.len(),
    ensures
        final(app)@ == (if opened {
            with_status(old(app)@, "Opened "@ + old(app)@.themes[theme_index as int].name@, false)
        } else {
            with_status(old(app)@, "xdg-open is unavailable"@, true)
        }),
{
    if opened {
        let mut text = String::from_str("Opened ");
        text.append(app.themes[theme_index].name.as_str());
        app.status = StatusMessage::info(text);
    } else {
        app.status = error_message("xdg-open is unavailable");
    }
}

/// Records the outcome of applying the theme at `theme_index` at `size`:
/// on success the theme becomes current and the reports are summarized; on
/// failure the error is shown. A theme that is no longer there is reported.
pub fn apply_theme_now(
    app: &mut App,
    theme_index: usize,
    size: u32,
    outcome: Result<Vec<ApplyReport>, String>,
)
    ensures
        theme_index >= old(app)@.themes.len() ==> final(app)@ == with_status(
            old(app)@,
            "Selected theme is no longer available"@,
            true,
        ),
        theme_index < old(app)@.themes.len() ==> final(app)@ == match outcome {
            Ok(reports) => AppModel {
                current_theme: old(app)@.themes[theme_index as int].name@,
                current_size: size,
                status_text: spec_summary(old(app)@.themes[theme_index as int].name@, size, reports@),
                status_is_error: false,
                ..old(app)@
            },
            Err(e) => with_status(old(app)@, "Failed: "@ + e@, true),
        },
{
    if theme_index >= app.themes.len() {
        app.status = error_message("Selected theme is no longer available");
        return;
    }
    match outcome {
        Ok(reports) => {
            let name = String::from_str(app.themes[theme_index].name.as_str());
            let text = summarize_apply(name.as_str(), size, reports.as_slice());
            app.current = CursorState { theme: name, size };
            app.status = StatusMessage::info(text);
        },
        Err(e) => {
            let mut text = String::from_str("Failed: ");
            text.append(e.as_str());
            app.status = StatusMessage::error(text);
        },
    }
}

/// Records the outcome of restoring the restore point at `backup_index`
/// (the number of files restored, or the error): on success its theme and
/// size become current. A restore point that is no longer there is reported.
pub fn restore_backup_now(app: &mut App, backup_index: usize, outcome: Result<usize, String>)
    ensures
        backup_index >= old(app)@.backups.len() ==> final(app)@ == with_status(
            old(app)@,
            "Selected backup is no longer available"@,
            true,
        ),
        backup_index < old(app)@.backups.len() ==> final(app)@ == match outcome {
            Ok(restored) => AppModel {
                current_theme: old(app)@.backups[backup_index as int].theme@,
                current_size: old(app)@.backups[backup_index as int].size,
                status_text: "Restored "@ + decimal(restored as nat) + " files and applied "@
                    + old(app)@.backups[backup_index as int].theme@ + " @ "@ + decimal(
                    old(app)@.backups[backup_index as int].size as nat,
                ),
                status_is_error: false,
                ..old(app)@
            },
            Err(e) => with_status(old(app)@, "Restore failed: "@ + e@, true),
        },
{
    if backup_index >= app.backups.len() {
        app.status = error_message("Selected backup is no longer available");
        return;
    }
    match outcome {
        Ok(restored) => {
            let theme = String::from_str(app.backups[backup_index].theme.as_str());
            let size = app.backups[backup_index].size;
            let mut text = String::from_str("Restored ");
            text.append(u128_to_string(restored as u128).as_str());
            text.append(" files and applied ");
            text.append(theme.as_str());
            text.append(" @ ");
            text.append(u32_to_string(size).as_str());
            app.current = CursorState { theme, size };
            app.status = StatusMessage::info(text);
        },
        Err(e) => {
            let mut text = String::from_str("Restore failed: ");
            text.append(e.as_str());
            app.status = StatusMessage::error(text);
        },
    }
}

/// The selection is on an entry of the page shown, or at the first position
/// where the page is empty.
pub open spec fn selection_valid(m: AppModel) -> bool {
    &&& m.visible_count() == 0 ==> m.selected == 0
    &&& m.visible_count() > 0 ==> m.selected < m.visible_count()
}

/// Control-C quits from every state and changes nothing else.
pub proof fn lemma_ctrl_c_quits(m: AppModel)
    ensures
        key_transition(m, KeyPress { key: Key::Char('c'), ctrl: true }) == (
            AppModel { should_quit: true, ..m },
            Effect::Nothing,
        ),
{
}

/// Every key press keeps the selection on an entry of the page shown.
pub proof fn lemma_key_keeps_selection_valid(m: AppModel, k: KeyPress)
    requires
        selection_valid(m),
    ensures
        selection_valid(key_transition(m, k).0),
{
    let r = key_transition(m, k).0;
    assert(r.visible_count() == r.clamped().visible_count());
}

/// The work finished after a key press keeps the selection valid: fresh
/// themes and a fresh backup list start at the first entry, and reporting
/// an outcome changes only the status and the current cursor.
pub proof fn lemma_completions_keep_selection_valid(
    m: AppModel,
    themes: Seq<CursorTheme>,
    backups: Seq<BackupSet>,
    text: Seq<char>,
    is_error: bool,
    theme: Seq<char>,
    size: u32,
)
    requires
        selection_valid(m),
    ensures
        selection_valid(
            with_status(
                AppModel {
                    themes,
                    view: BrowserView::Themes,
                    selected: 0,
                    filter: Seq::<char>::empty(),
                    filter_mode: false,
                    ..m
                },
                text,
                is_error,
            ),
        ),
        selection_valid(
            with_status(
                AppModel {
                    backups,
                    view: BrowserView::Backups,
                    selected: 0,
                    filter: Seq::<char>::empty(),
                    filter_mode: false,
                    ..m
                },
                text,
                is_error,
            ),
        ),
        selection_valid(
            AppModel {
                current_theme: theme,
                current_size: size,
                status_text: text,
                status_is_error: is_error,
                ..m
            },
        ),
{
    let r = AppModel {
        current_theme: theme,
        current_size: size,
        status_text: text,
        status_is_error: is_error,
        ..m
    };
    assert(r.visible_count() == m.visible_count());
}

/// Pressing Enter on a selected theme and then confirming asks the caller to
/// apply exactly that theme at the size chosen.
pub proof fn lemma_confirmed_apply_is_selected_theme(m: AppModel, i: usize)
    requires
        !m.show_help,
        m.pending_action is None,
        !m.filter_mode,
        m.view == BrowserView::Themes,
        m.selected_item() == Some(VisibleItem::Theme(i)),
        i < m.themes.len(),
    ensures
        ({
            let first = key_transition(m, KeyPress { key: Key::Enter, ctrl: false }).0;
            let second = key_transition(first, KeyPress { key: Key::Char('y'), ctrl: false });
            &&& first.pending_action == Some(PendingAction::ApplyTheme { theme_index: i, size: m.size })
            &&& second.1 == Effect::ApplyTheme { theme_index: i, size: m.size }
            &&& second.0.pending_action is None
        }),
{
    let first = key_transition(m, KeyPress { key: Key::Enter, ctrl: false }).0;
    assert(entered(m).visible_count() == m.visible_count());
    assert(!first.show_help);
}

/// Declining a pending action drops it and says so.
pub proof fn lemma_decline_cancels(m: AppModel)
    requires
        !m.show_help,
        m.pending_action is Some,
    ensures
        key_transition(m, KeyPress { key: Key::Esc, ctrl: false }).0 == with_status(
            AppModel { pending_action: None, ..m },
            "Cancelled"@,
            false,
        ),
        key_transition(m, KeyPress { key: Key::Esc, ctrl: false }).1 == Effect::Nothing,
{
}

/// On a page with nothing pending, no help and no search, the Up arrow and
/// `k` both move the selection one entry up, stopping at the first, and the
/// Down arrow and `j` both move it one entry down, stopping at the last;
/// nothing else changes and no work is asked for.
pub proof fn lemma_arrow_keys_move_selection(m: AppModel)
    requires
        !m.show_help,
        m.pending_action is None,
        !m.filter_mode,
        selection_valid(m),
    ensures
        key_transition(m, KeyPress { key: Key::Up, ctrl: false }) == (
            AppModel { selected: if m.selected == 0 { 0 } else { (m.selected - 1) as usize }, ..m },
            Effect::Nothing,
        ),
        key_transition(m, KeyPress { key: Key::Char('k'), ctrl: false }) == key_transition(
            m,
            KeyPress { key: Key::Up, ctrl: false },
        ),
        key_transition(m, KeyPress { key: Key::Down, ctrl: false }) == (
            AppModel {
                selected: if m.selected + 1 < m.visible_count() {
                    (m.selected + 1) as usize
                } else {
                    m.selected
                },
                ..m
            },
            Effect::Nothing,
        ),
        key_transition(m, KeyPress { key: Key::Char('j'), ctrl: false }) == key_transition(
            m,
            KeyPress { key: Key::Down, ctrl: false },
        ),
{
    let up = AppModel { selected: if m.selected == 0 { 0 } else { (m.selected - 1) as usize }, ..m };
    assert(up.visible_count() == m.visible_count());
    assert(up.clamped() == up);
    let down = moved_down(m);
    assert(down.visible_count() == m.visible_count());
    assert(down.clamped() == down);
}

/// On the backup page with nothing pending, no help and no search, `u` does
/// what Enter does: the selected restore point becomes the pending restore,
/// the status asks to confirm restoring it by its id, and no work is asked
/// for until it is confirmed.
pub proof fn lemma_u_restores_like_enter(m: AppModel)
    requires
        !m.show_help,
        m.pending_action is None,
        !m.filter_mode,
        m.view == BrowserView::Backups,
    ensures
        key_transition(m, KeyPress { key: Key::Char('u'), ctrl: false }) == key_transition(
            m,
            KeyPress { key: Key::Enter, ctrl: false },
        ),
        m.selected < m.visible_backups().len() ==> ({
            let i = m.visible_backups()[m.selected as int];
            &&& i < m.backups.len()
            &&& key_transition(m, KeyPress { key: Key::Char('u'), ctrl: false }) == (
                AppModel {
                    pending_action: Some(PendingAction::RestoreBackup { backup_index: i }),
                    status_text: "Confirm restoring "@ + m.backups[i as int].id@,
                    status_is_error: false,
                    ..m
                },
                Effect::Nothing,
            )
        }),
{
    lemma_matching_backups_in_range(m.backups, m.needle(), m.backups.len());
    let r = restore_requested(m);
    assert(r.visible_count() == m.visible_count());
    if m.selected < m.visible_backups().len() {
        let i = m.visible_backups()[m.selected as int];
        assert(i < m.backups.len());
        assert(r.clamped() == r);
    }
}

} // verus!
