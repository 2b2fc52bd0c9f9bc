//! The browser state behind the terminal interface: which themes and restore
//! points the search shows, which entry is selected, the size to apply, and
//! the action waiting for confirmation.

use vstd::prelude::*;

use crate::system::backup::{BackupFile, BackupSet};
use crate::config::{clamp_size, spec_clamp_size, DEFAULT_SIZE, MAX_SIZE, MIN_SIZE};
use crate::state::CursorState;
use crate::text::{contains, has_substring, lowercase, occurs_at, to_lowercase};
use crate::theme::CursorTheme;

verus! {

/// The page the browser shows.
#[derive(Debug, Clone, Copy, PartialEq, Eq, Structural)]
pub enum BrowserView {
    Themes,
    Backups,
}

/// An action that runs only once the user confirms it.
#[derive(Debug, Clone, Copy, PartialEq, Eq, Structural)]
pub enum PendingAction {
    ApplyTheme { theme_index: usize, size: u32 },
    RestoreBackup { backup_index: usize },
}

/// The line of feedback shown at the bottom of the screen.
#[derive(Debug, Clone, PartialEq, Eq)]
pub struct StatusMessage {
    pub text: String,
    pub is_error: bool,
}

impl StatusMessage {
    /// The message shown before anything has happened.
    pub fn ready() -> (m: Self)
        ensures
            m.text@ == "Ready"@,
            !m.is_error,
    {
        StatusMessage { text: String::from_str("Ready"), is_error: false }
    }

    /// A message that reports progress.
    pub fn info(text: String) -> (m: Self)
        ensures
            m.text@ == text@,
            !m.is_error,
    {
        StatusMessage { text, is_error: false }
    }

    /// A message that reports a failure.
    pub fn error(text: String) -> (m: Self)
        ensures
            m.text@ == text@,
            m.is_error,
    {
        StatusMessage { text, is_error: true }
    }
}

/// The whole state of the browser.
#[derive(Debug, Clone)]
pub struct App {
    pub themes: Vec<CursorTheme>,
    pub backups: Vec<BackupSet>,
    pub view: BrowserView,
    pub selected: usize,
    pub filter: String,
    pub filter_mode: bool,
    pub size: u32,
    pub current: CursorState,
    pub status: StatusMessage,
    pub show_help: bool,
    pub pending_action: Option<PendingAction>,
    pub should_quit: bool,
}

/// An entry of the theme list.
#[derive(Debug, Clone, Copy, PartialEq, Eq, Structural)]
pub enum VisibleItem {
    Theme(usize),
}

/// `needle` occurs in the lower-cased `text`.
pub open spec fn text_matches(text: Seq<char>, needle: Seq<char>) -> bool {
    has_substring(lowercase(text), needle)
}

/// A theme is found by a lower-cased search text when the text is empty or
/// occurs in its lower-cased name or display name.
pub open spec fn theme_matches(t: CursorTheme, needle: Seq<char>) -> bool {
    needle.len() == 0 || text_matches(t.name@, needle) || text_matches(t.display_name@, needle)
}

/// A saved file is found when the text occurs in its target or its path.
pub open spec fn file_matches(f: BackupFile, needle: Seq<char>) -> bool {
    text_matches(f.target@, needle) || text_matches(f.original_path@, needle)
}

/// A restore point is found when the text is empty or occurs in its theme,
/// its id, or one of its files.
pub open spec fn backup_matches(b: BackupSet, needle: Seq<char>) -> bool {
    ||| needle.len() == 0
    ||| text_matches(b.theme@, needle)
    ||| text_matches(b.id@, needle)
    ||| exists|j: int| 0 <= j < b.files@.len() && file_matches(#[trigger] b.files@[j], needle)
}

/// The positions among the first `n` themes of the themes the text finds, ascending.
pub open spec fn matching_themes(themes: Seq<CursorTheme>, needle: Seq<char>, n: nat) -> Seq<usize>
    decreases n,
{
    if n == 0 {
        Seq::<usize>::empty()
    } else {
        let r = matching_themes(themes, needle, (n - 1) as nat);
        if theme_matches(themes[n - 1], needle) {
            r.push((n - 1) as usize)
        } else {
            r
        }
    }
}

/// The positions among the first `n` restore points of those the text finds, ascending.
pub open spec fn matching_backups(backups: Seq<BackupSet>, needle: Seq<char>, n: nat) -> Seq<usize>
    decreases n,
{
    if n == 0 {
        Seq::<usize>::empty()
    } else {
        let r = matching_backups(backups, needle, (n - 1) as nat);
        if backup_matches(backups[n - 1], needle) {
            r.push((n - 1) as usize)
        } else {
            r
        }
    }
}

/// Theme list entries for positions.
pub open spec fn theme_items(ix: Seq<usize>) -> Seq<VisibleItem> {
    ix.map_values(|i: usize| VisibleItem::Theme(i))
}

/// The state of the browser as plain values: the strings as character sequences.
pub struct AppModel {
    pub themes: Seq<CursorTheme>,
    pub backups: Seq<BackupSet>,
    pub view: BrowserView,
    pub selected: usize,
    pub filter: Seq<char>,
    pub filter_mode: bool,
    pub size: u32,
    pub current_theme: Seq<char>,
    pub current_size: u32,
    pub status_text: Seq<char>,
    pub status_is_error: bool,
    pub show_help: bool,
    pub pending_action: Option<PendingAction>,
    pub should_quit: bool,
}

impl View for App {
    type V = AppModel;

    open spec fn view(&self) -> AppModel {
        AppModel {
            themes: self.themes@,
            backups: self.backups@,
            view: self.view,
            selected: self.selected,
            filter: self.filter@,
            filter_mode: self.filter_mode,
            size: self.size,
            current_theme: self.current.theme@,
            current_size: self.current.size,
            status_text: self.status.text@,
            status_is_error: self.status.is_error,
            show_help: self.show_help,
            pending_action: self.pending_action,
            should_quit: self.should_quit,
        }
    }
}

impl AppModel {
    /// The search text, lower-cased.
    pub open spec fn needle(self) -> Seq<char> {
        lowercase(self.filter)
    }

    /// The positions of the themes the search finds.
    pub open spec fn visible_themes(self) -> Seq<usize> {
        matching_themes(self.themes, self.needle(), self.themes.len())
    }

    /// The theme list: the themes the search finds, on the theme page only.
    pub open spec fn visible_items(self) -> Seq<VisibleItem> {
        match self.view {
            BrowserView::Themes => theme_items(self.visible_themes()),
            BrowserView::Backups => Seq::<VisibleItem>::empty(),
        }
    }

    /// The positions of the restore points the search finds.
    pub open spec fn visible_backups(self) -> Seq<usize> {
        matching_backups(self.backups, self.needle(), self.backups.len())
    }

    /// The number of entries on the page shown.
    pub open spec fn visible_count(self) -> nat {
        match self.view {
            BrowserView::Backups => self.visible_backups().len(),
            BrowserView::Themes => self.visible_items().len(),
        }
    }

    /// `selected`, brought onto the entries of the page shown.
    pub open spec fn clamped_selected(self) -> usize {
        if self.visible_count() == 0 {
            0
        } else if self.selected >= self.visible_count() {
            (self.visible_count() - 1) as usize
        } else {
            self.selected
        }
    }

    /// The state with the selection brought onto the entries of the page shown.
    pub open spec fn clamped(self) -> AppModel {
        AppModel { selected: self.clamped_selected(), ..self }
    }

    /// The selected theme list entry.
    pub open spec fn selected_item(self) -> Option<VisibleItem> {
        if self.view == BrowserView::Backups || self.selected >= self.visible_items().len() {
            None
        } else {
            Some(self.visible_items()[self.selected as int])
        }
    }

    /// The position among all restore points of the selected one.
    pub open spec fn selected_backup_index(self) -> Option<usize> {
        if self.selected < self.visible_backups().len() {
            Some(self.visible_backups()[self.selected as int])
        } else {
            None
        }
    }
}

impl App {
    /// The search text, lower-cased.
    pub open spec fn needle(&self) -> Seq<char> {
        self@.needle()
    }

    /// The positions of the themes the search finds.
    pub open spec fn spec_visible_themes(&self) -> Seq<usize> {
        self@.visible_themes()
    }

    /// The theme list: the themes the search finds, on the theme page only.
    pub open spec fn spec_visible_items(&self) -> Seq<VisibleItem> {
        self@.visible_items()
    }

    /// The positions of the restore points the search finds.
    pub open spec fn spec_visible_backups(&self) -> Seq<usize> {
        self@.visible_backups()
    }

    /// The number of entries on the page shown.
    pub open spec fn spec_visible_count(&self) -> nat {
        self@.visible_count()
    }

    /// `selected`, brought onto the entries of the page shown.
    pub open spec fn clamped_selected(&self) -> usize {
        self@.clamped_selected()
    }

    /// A browser on the theme page with the given themes and current state,
    /// the default size, an empty search and nothing pending.
    pub fn new(themes: Vec<CursorTheme>, current: CursorState) -> (app: Self)
        ensures
            app.themes@ == themes@,
            app.backups@.len() == 0,
            app.view == BrowserView::Themes,
            app.selected == 0,
            app.filter@.len() == 0,
            !app.filter_mode,
            app.size == DEFAULT_SIZE,
            app.current == current,
            app.status.text@ == "Ready"@,
            !app.status.is_error,
            !app.show_help,
            app.pending_action is None,
            !app.should_quit,
    {
        App {
            themes,
            backups: Vec::new(),
            view: BrowserView::Themes,
            selected: 0,
            filter: String::new(),
            filter_mode: false,
            size: DEFAULT_SIZE,
            current,
            status: StatusMessage::ready(),
            show_help: false,
            pending_action: None,
            should_quit: false,
        }
    }

    /// The theme list: on the theme page, the themes whose name or display
    /// name contains the search text (ignoring case), in order; on the
    /// backup page, nothing.
    pub fn visible_items(&self) -> (items: Vec<VisibleItem>)
        ensures
            items@ == self.spec_visible_items(),
            self.filter@.len() == 0 && self.view == BrowserView::Themes ==> items@ == theme_items(
                Seq::new(self.themes@.len(), |i: int| i as usize),
            ),
            self.view == BrowserView::Themes ==> forall|i: int|
                0 <= i < self.themes@.len() ==> (#[trigger] items@.contains(VisibleItem::Theme(i as usize))
                    <==> ({
                    let needle = lowercase(self.filter@);
                    ||| needle.len() == 0
                    ||| has_substring(lowercase(self.themes@[i].name@), needle)
                    ||| has_substring(lowercase(self.themes@[i].display_name@), needle)
                })),
    {
        let needle = to_lowercase(self.filter.as_str());
        proof {
            if needle@.len() == 0 {
                lemma_empty_search_shows_all_themes(self.themes@, needle@, self.themes@.len());
            }
        }
        match self.view {
            BrowserView::Backups => Vec::new(),
            BrowserView::Themes => {
                let empty = needle.unicode_len() == 0;
                let mut items: Vec<VisibleItem> = Vec::new();
                let mut i: usize = 0;
                while i < self.themes.len()
                    invariant
                        i <= self.themes.len(),
                        needle@ == self.needle(),
                        empty == (needle@.len() == 0),
                        items@ == theme_items(matching_themes(self.themes@, needle@, i as nat)),
                    decreases self.themes.len() - i,
                {
                    let t = &self.themes[i];
                    let found = empty || contains(to_lowercase(t.name.as_str()).as_str(), needle.as_str())
                        || contains(to_lowercase(t.display_name.as_str()).as_str(), needle.as_str());
                    if found {
                        items.push(VisibleItem::Theme(i));
                    }
                    assert(items@ =~= theme_items(matching_themes(self.themes@, needle@, (i + 1) as nat)));
                    i = i + 1;
                }
                proof {
                    assert forall|i: int| 0 <= i < self.themes@.len() implies (
                    #[trigger] items@.contains(VisibleItem::Theme(i as usize)) <==> ({
                        let needle = lowercase(self.filter@);
                        ||| needle.len() == 0
                        ||| has_substring(lowercase(self.themes@[i].name@), needle)
                        ||| has_substring(lowercase(self.themes@[i].display_name@), needle)
                    })) by {
                        lemma_theme_search_fields(self@, i);
                    }
                }
                items
            },
        }
    }

    /// The positions of the restore points whose theme, id, or one of whose
    /// files' targets or paths contains the search text (ignoring case), in order.
    pub fn visible_backups(&self) -> (ix: Vec<usize>)
        ensures
            ix@ == self.spec_visible_backups(),
            self.filter@.len() == 0 ==> ix@ == Seq::new(self.backups@.len(), |i: int| i as usize),
            forall|i: int|
                0 <= i < self.backups@.len() ==> (#[trigger] ix@.contains(i as usize) <==> ({
                    let needle = lowercase(self.filter@);
                    let b = self.backups@[i];
                    ||| needle.len() == 0
                    ||| has_substring(lowercase(b.theme@), needle)
                    ||| has_substring(lowercase(b.id@), needle)
                    ||| exists|j: int|
                        0 <= j < b.files@.len() && (has_substring(
                            lowercase((#[trigger] b.files@[j]).target@),
                            needle,
                        ) || has_substring(lowercase(b.files@[j].original_path@), needle))
                })),
    {
        let needle = to_lowercase(self.filter.as_str());
        proof {
            if needle@.len() == 0 {
                lemma_empty_search_shows_all_backups(self.backups@, needle@, self.backups@.len());
            }
        }
        let empty = needle.unicode_len() == 0;
        let mut ix: Vec<usize> = Vec::new();
        let mut i: usize = 0;
        while i < self.backups.len()
            invariant
                i <= self.backups.len(),
                needle@ == self.needle(),
                empty == (needle@.len() == 0),
                ix@ == matching_backups(self.backups@, needle@, i as nat),
            decreases self.backups.len() - i,
        {
            let b = &self.backups[i];
            let mut found = empty || contains(to_lowercase(b.theme.as_str()).as_str(), needle.as_str())
                || contains(to_lowercase(b.id.as_str()).as_str(), needle.as_str());
            let mut j: usize = 0;
            while !found && j < b.files.len()
                invariant
                    j <= b.files.len(),
                    b == self.backups@[i as int],
                    needle@ == self.needle(),
                    found == backup_matches(*b, needle@) || !found,
                    !found ==> !(needle@.len() == 0) && !text_matches(b.theme@, needle@)
                        && !text_matches(b.id@, needle@),
                    !found ==> forall|k: int| 0 <= k < j ==> !file_matches(#[trigger] b.files@[k], needle@),
                    found ==> backup_matches(*b, needle@),
                decreases b.files.len() - j,
            {
                let f = &b.files[j];
                if contains(to_lowercase(f.target.as_str()).as_str(), needle.as_str())
                    || contains(to_lowercase(f.original_path.as_str()).as_str(), needle.as_str()) {
                    assert(file_matches(b.files@[j as int], needle@));
                    found = true;
                }
                j = j + 1;
            }
            assert(found == backup_matches(*b, needle@));
            if found {
                ix.push(i);
            }
            i = i + 1;
        }
        proof {
            assert forall|i: int| 0 <= i < self.backups@.len() implies (
            #[trigger] ix@.contains(i as usize) <==> ({
                let needle = lowercase(self.filter@);
                let b = self.backups@[i];
                ||| needle.len() == 0
                ||| has_substring(lowercase(b.theme@), needle)
                ||| has_substring(lowercase(b.id@), needle)
                ||| exists|j: int|
                    0 <= j < b.files@.len() && (has_substring(
                        lowercase((#[trigger] b.files@[j]).target@),
                        needle,
                    ) || has_substring(lowercase(b.files@[j].original_path@), needle))
            })) by {
                lemma_backup_search_fields(self@, i);
            }
        }
        ix
    }

    /// The selected theme list entry: none on the backup page or past the list's end.
    pub fn selected_item(&self) -> (r: Option<VisibleItem>)
        ensures
            r == (if self.view == BrowserView::Backups || self.selected >= self.spec_visible_items().len() {
                None
            } else {
                Some(self.spec_visible_items()[self.selected as int])
            }),
    {
        if self.view == BrowserView::Backups {
            return None;
        }
        let items = self.visible_items();
        if self.selected < items.len() {
            Some(items[self.selected])
        } else {
            None
        }
    }

    /// The selected restore point: none past the end of the found ones.
    pub fn selected_backup(&self) -> (r: Option<&BackupSet>)
        ensures
            r is Some <==> self.selected < self.spec_visible_backups().len(),
            r matches Some(b) ==> *b == self.backups@[self.spec_visible_backups()[self.selected as int] as int],
    {
        let items = self.visible_backups();
        if self.selected < items.len() {
            proof {
                lemma_matching_backups_in_range(self.backups@, self.needle(), self.backups@.len());
            }
            let index = items[self.selected];
            if index < self.backups.len() {
                Some(&self.backups[index])
            } else {
                None
            }
        } else {
            None
        }
    }

    /// The position of the selected restore point among all restore points.
    pub fn selected_backup_index(&self) -> (r: Option<usize>)
        ensures
            r == (if self.selected < self.spec_visible_backups().len() {
                Some(self.spec_visible_backups()[self.selected as int])
            } else {
                None
            }),
    {
        let items = self.visible_backups();
        if self.selected < items.len() {
            Some(items[self.selected])
        } else {
            None
        }
    }

    /// The theme a list entry stands for, if it is still there.
    pub fn theme_for_item(&self, item: VisibleItem) -> (r: Option<&CursorTheme>)
        ensures
            match item {
                VisibleItem::Theme(i) => {
                    &&& (r is Some <==> i < self.themes@.len())
                    &&& (r matches Some(t) ==> *t == self.themes@[i as int])
                },
            },
    {
        match item {
            VisibleItem::Theme(index) => {
                if index < self.themes.len() {
                    Some(&self.themes[index])
                } else {
                    None
                }
            },
        }
    }

    /// Moves the selection one entry down, stopping at the last entry.
    pub fn move_down(&mut self)
        ensures
            *final(self) == (App {
                selected: if old(self).spec_visible_count() == 0 {
                    0
                } else if old(self).selected + 1 < old(self).spec_visible_count() {
                    (old(self).selected + 1) as usize
                } else {
                    (old(self).spec_visible_count() - 1) as usize
                },
                ..*old(self)
            }),
    {
        let count = self.visible_count();
        if count == 0 {
            self.selected = 0;
        } else if self.selected < count - 1 {
            self.selected = self.selected + 1;
        } else {
            self.selected = count - 1;
        }
    }

    /// Moves the selection one entry up, stopping at the first entry.
    pub fn move_up(&mut self)
        ensures
            *final(self) == (App {
                selected: if old(self).selected == 0 { 0 } else { (old(self).selected - 1) as usize },
                ..*old(self)
            }),
    {
        self.selected = self.selected.saturating_sub(1);
    }

    /// Leaves the search; on the backup page also returns to the theme page
    /// with the first entry selected.
    pub fn back(&mut self)
        ensures
            final(self).filter@.len() == 0,
            !final(self).filter_mode,
            final(self).view == BrowserView::Themes,
            final(self).selected == (if old(self).view == BrowserView::Backups {
                0
            } else {
                old(self).selected
            }),
            final(self).themes == old(self).themes,
            final(self).backups == old(self).backups,
            final(self).size == old(self).size,
            final(self).current == old(self).current,
            final(self).status == old(self).status,
            final(self).show_help == old(self).show_help,
            final(self).pending_action == old(self).pending_action,
            final(self).should_quit == old(self).should_quit,
    {
        match self.view {
            BrowserView::Themes => {
                self.filter_mode = false;
                self.filter = String::new();
            },
            BrowserView::Backups => {
                self.view = BrowserView::Themes;
                self.selected = 0;
                self.filter_mode = false;
                self.filter = String::new();
            },
        }
    }

    /// Shows the backup page with the given restore points, the first one
    /// selected and the search cleared.
    pub fn show_backups(&mut self, backups: Vec<BackupSet>)
        ensures
            final(self).backups@ == backups@,
            final(self).view == BrowserView::Backups,
            final(self).selected == 0,
            final(self).filter@.len() == 0,
            !final(self).filter_mode,
            final(self).themes == old(self).themes,
            final(self).size == old(self).size,
            final(self).current == old(self).current,
            final(self).status == old(self).status,
            final(self).show_help == old(self).show_help,
            final(self).pending_action == old(self).pending_action,
            final(self).should_quit == old(self).should_quit,
    {
        self.backups = backups;
        self.view = BrowserView::Backups;
        self.selected = 0;
        self.filter = String::new();
        self.filter_mode = false;
    }

    /// Makes the size to apply one larger, within the size limits.
    pub fn increase_size(&mut self)
        ensures
            *final(self) == (App {
                size: spec_clamp_size(if old(self).size == u32::MAX { u32::MAX } else { (old(self).size + 1) as u32 }),
                ..*old(self)
            }),
    {
        self.size = clamp_size(self.size.saturating_add(1));
    }

    /// Makes the size to apply one smaller, within the size limits.
    pub fn decrease_size(&mut self)
        ensures
            *final(self) == (App {
                size: spec_clamp_size(if old(self).size == 0 { 0 } else { (old(self).size - 1) as u32 }),
                ..*old(self)
            }),
    {
        self.size = clamp_size(self.size.saturating_sub(1));
    }

    /// Sets the size to apply back to the default.
    pub fn reset_size(&mut self)
        ensures
            *final(self) == (App { size: DEFAULT_SIZE, ..*old(self) }),
    {
        self.size = DEFAULT_SIZE;
    }

    /// Shows the theme page with the given themes, the first one selected
    /// and the search cleared.
    pub fn replace_themes(&mut self, themes: Vec<CursorTheme>)
        ensures
            final(self).themes@ == themes@,
            final(self).view == BrowserView::Themes,
            final(self).selected == 0,
            final(self).filter@.len() == 0,
            !final(self).filter_mode,
            final(self).backups == old(self).backups,
            final(self).size == old(self).size,
            final(self).current == old(self).current,
            final(self).status == old(self).status,
            final(self).show_help == old(self).show_help,
            final(self).pending_action == old(self).pending_action,
            final(self).should_quit == old(self).should_quit,
    {
        self.themes = themes;
        self.view = BrowserView::Themes;
        self.selected = 0;
        self.filter = String::new();
        self.filter_mode = false;
    }

    /// Brings the selection onto the entries of the page shown: the last
    /// entry where it is past the end, the first where there is none.
    pub fn clamp_selection(&mut self)
        ensures
            *final(self) == (App { selected: old(self).clamped_selected(), ..*old(self) }),
    {
        let count = self.visible_count();
        if count == 0 {
            self.selected = 0;
        } else if self.selected >= count {
            self.selected = count - 1;
        }
    }

    /// Drops the action waiting for confirmation.
    pub fn clear_pending(&mut self)
        ensures
            *final(self) == (App { pending_action: None, ..*old(self) }),
    {
        self.pending_action = None;
    }

    /// The number of entries on the page shown.
    fn visible_count(&self) -> (n: usize)
        ensures
            n == self.spec_visible_count(),
    {
        match self.view {
            BrowserView::Backups => self.visible_backups().len(),
            BrowserView::Themes => self.visible_items().len(),
        }
    }
}

/// The found restore points are positions of restore points.
pub proof fn lemma_matching_backups_in_range(backups: Seq<BackupSet>, needle: Seq<char>, n: nat)
    requires
        n <= backups.len(),
    ensures
        matching_backups(backups, needle, n).len() <= n,
        forall|k: int| 0 <= k < matching_backups(backups, needle, n).len()
            ==> #[trigger] matching_backups(backups, needle, n)[k] < n,
    decreases n,
{
    if n > 0 {
        lemma_matching_backups_in_range(backups, needle, (n - 1) as nat);
    }
}


/// The search finds exactly the themes it matches, each once, in order.
pub proof fn lemma_matching_themes_exact(themes: Seq<CursorTheme>, needle: Seq<char>, n: nat)
    requires
        n <= usize::MAX,
    ensures
        forall|k: int| 0 <= k < matching_themes(themes, needle, n).len()
            ==> #[trigger] matching_themes(themes, needle, n)[k] < n,
        forall|k: int, l: int| 0 <= k < l < matching_themes(themes, needle, n).len()
            ==> matching_themes(themes, needle, n)[k] < matching_themes(themes, needle, n)[l],
        forall|i: int| 0 <= i < n ==> (matching_themes(themes, needle, n).contains(i as usize)
            <==> theme_matches(themes[i], needle)),
    decreases n,
{
    if n > 0 {
        let m = (n - 1) as nat;
        lemma_matching_themes_exact(themes, needle, m);
        let r = matching_themes(themes, needle, m);
        let r2 = matching_themes(themes, needle, n);
        let hit = theme_matches(themes[m as int], needle);
        if hit {
            assert(r2 == r.push(m as usize));
        } else {
            assert(r2 == r);
        }
        assert forall|k: int| 0 <= k < r2.len() implies #[trigger] r2[k] < n by {
            if k < r.len() {
                assert(r2[k] == r[k]);
            }
        }
        assert forall|k: int, l: int| 0 <= k < l < r2.len() implies r2[k] < r2[l] by {
            assert(r2[k] == r[k]);
            if l < r.len() {
                assert(r2[l] == r[l]);
            } else {
                assert(r2[l] == m as usize);
            }
        }
        assert forall|i: int| 0 <= i < n implies (r2.contains(i as usize) <==> theme_matches(
            themes[i],
            needle,
        )) by {
            if r2.contains(i as usize) {
                let k = choose|k: int| 0 <= k < r2.len() && r2[k] == i as usize;
                if hit {
                    if k < r.len() {
                        assert(r[k] == i as usize);
                        assert(r.contains(i as usize));
                    } else {
                        assert(r2[k] == m as usize);
                    }
                } else {
                    assert(r[k] == i as usize);
                    assert(r.contains(i as usize));
                }
            }
            if theme_matches(themes[i], needle) {
                if i < m {
                    assert(r.contains(i as usize));
                    let k = choose|k: int| 0 <= k < r.len() && r[k] == i as usize;
                    assert(r2[k] == i as usize);
                } else {
                    assert(r2[r2.len() - 1] == i as usize);
                }
            }
        }
    }
}

/// The search finds exactly the restore points it matches, each once.
pub proof fn lemma_matching_backups_exact(backups: Seq<BackupSet>, needle: Seq<char>, n: nat)
    requires
        n <= backups.len(),
        n <= usize::MAX,
    ensures
        forall|i: int| 0 <= i < n ==> (matching_backups(backups, needle, n).contains(i as usize)
            <==> backup_matches(backups[i], needle)),
    decreases n,
{
    if n > 0 {
        let m = (n - 1) as nat;
        lemma_matching_backups_exact(backups, needle, m);
        lemma_matching_backups_in_range(backups, needle, m);
        let r = matching_backups(backups, needle, m);
        let r2 = matching_backups(backups, needle, n);
        let hit = backup_matches(backups[m as int], needle);
        if hit {
            assert(r2 == r.push(m as usize));
        } else {
            assert(r2 == r);
        }
        assert forall|i: int| 0 <= i < n implies (r2.contains(i as usize) <==> backup_matches(
            backups[i],
            needle,
        )) by {
            if r2.contains(i as usize) {
                let k = choose|k: int| 0 <= k < r2.len() && r2[k] == i as usize;
                if hit {
                    if k < r.len() {
                        assert(r[k] == i as usize);
                        assert(r.contains(i as usize));
                    } else {
                        assert(r2[k] == m as usize);
                    }
                } else {
                    assert(r[k] == i as usize);
                    assert(r.contains(i as usize));
                }
            }
            if backup_matches(backups[i], needle) {
                if i < m {
                    assert(r.contains(i as usize));
                    let k = choose|k: int| 0 <= k < r.len() && r[k] == i as usize;
                    assert(r2[k] == i as usize);
                } else {
                    assert(r2[r2.len() - 1] == i as usize);
                }
            } else if i == m {
                if r2.contains(i as usize) {
                    let k = choose|k: int| 0 <= k < r2.len() && r2[k] == i as usize;
                    assert(r[k] < m);
                }
            }
        }
    }
}

/// On the theme page a theme is listed exactly when the lower-cased search
/// text is empty or occurs in the theme's lower-cased name or in its
/// lower-cased display name: a theme can be found by either.
pub proof fn lemma_theme_search_fields(a: AppModel, i: int)
    requires
        a.view == BrowserView::Themes,
        0 <= i < a.themes.len(),
        a.themes.len() <= usize::MAX,
    ensures
        a.visible_items().contains(VisibleItem::Theme(i as usize)) <==> ({
            let needle = lowercase(a.filter);
            ||| needle.len() == 0
            ||| has_substring(lowercase(a.themes[i].name@), needle)
            ||| has_substring(lowercase(a.themes[i].display_name@), needle)
        }),
{
    let needle = a.needle();
    let r = matching_themes(a.themes, needle, a.themes.len());
    lemma_matching_themes_exact(a.themes, needle, a.themes.len());
    let items = theme_items(r);
    if r.contains(i as usize) {
        let k = choose|k: int| 0 <= k < r.len() && r[k] == i as usize;
        assert(items[k] == VisibleItem::Theme(i as usize));
    }
    if items.contains(VisibleItem::Theme(i as usize)) {
        let k = choose|k: int| 0 <= k < items.len() && items[k] == VisibleItem::Theme(i as usize);
        assert(items[k] == VisibleItem::Theme(r[k]));
        assert(r.contains(i as usize));
    }
}

/// A restore point is found exactly when the lower-cased search text is
/// empty or occurs in the lower-cased text of its theme, its id, or the
/// target or original path of one of its saved files.
pub proof fn lemma_backup_search_fields(a: AppModel, i: int)
    requires
        0 <= i < a.backups.len(),
        a.backups.len() <= usize::MAX,
    ensures
        a.visible_backups().contains(i as usize) <==> ({
            let needle = lowercase(a.filter);
            let b = a.backups[i];
            ||| needle.len() == 0
            ||| has_substring(lowercase(b.theme@), needle)
            ||| has_substring(lowercase(b.id@), needle)
            ||| exists|j: int|
                0 <= j < b.files@.len() && (has_substring(
                    lowercase((#[trigger] b.files@[j]).target@),
                    needle,
                ) || has_substring(lowercase(b.files@[j].original_path@), needle))
        }),
{
    let needle = a.needle();
    let b = a.backups[i];
    lemma_matching_backups_exact(a.backups, needle, a.backups.len());
    let by_file = exists|j: int|
        0 <= j < b.files@.len() && (has_substring(lowercase((#[trigger] b.files@[j]).target@), needle)
            || has_substring(lowercase(b.files@[j].original_path@), needle));
    if exists|j: int| 0 <= j < b.files@.len() && file_matches(#[trigger] b.files@[j], needle) {
        let j = choose|j: int| 0 <= j < b.files@.len() && file_matches(#[trigger] b.files@[j], needle);
        assert(file_matches(b.files@[j], needle));
        assert(by_file);
    }
    if by_file {
        let j = choose|j: int|
            0 <= j < b.files@.len() && (has_substring(lowercase((#[trigger] b.files@[j]).target@), needle)
                || has_substring(lowercase(b.files@[j].original_path@), needle));
        assert(file_matches(b.files@[j], needle));
    }
}

/// With an empty search every theme is on the theme page, in order.
pub proof fn lemma_empty_search_shows_all_themes(themes: Seq<CursorTheme>, needle: Seq<char>, n: nat)
    requires
        needle.len() == 0,
    ensures
        matching_themes(themes, needle, n) == Seq::new(n, |i: int| i as usize),
    decreases n,
{
    if n > 0 {
        lemma_empty_search_shows_all_themes(themes, needle, (n - 1) as nat);
        assert(matching_themes(themes, needle, n) =~= Seq::new(n, |i: int| i as usize));
    }
}

/// With an empty search every restore point is found, in order.
pub proof fn lemma_empty_search_shows_all_backups(backups: Seq<BackupSet>, needle: Seq<char>, n: nat)
    requires
        needle.len() == 0,
    ensures
        matching_backups(backups, needle, n) == Seq::new(n, |i: int| i as usize),
    decreases n,
{
    if n > 0 {
        lemma_empty_search_shows_all_backups(backups, needle, (n - 1) as nat);
        assert(matching_backups(backups, needle, n) =~= Seq::new(n, |i: int| i as usize));
    }
}

/// After `clamp_selection`, the selection is on an entry of the page shown,
/// or at the first position where the page is empty.
pub proof fn lemma_clamped_selection_valid(app: App)
    ensures
        app.spec_visible_count() == 0 ==> app.clamped_selected() == 0,
        app.spec_visible_count() > 0 ==> app.clamped_selected() < app.spec_visible_count(),
        app.selected < app.spec_visible_count() ==> app.clamped_selected() == app.selected,
{
}

/// Making the size one larger and then one smaller gives back a size that
/// is within the limits and below the largest; and the other way round for
/// a size above the smallest.
pub proof fn lemma_size_steps_undo(size: u32)
    ensures
        MIN_SIZE <= size < MAX_SIZE ==> spec_clamp_size((spec_clamp_size((size + 1) as u32) - 1) as u32)
            == size,
        MIN_SIZE < size <= MAX_SIZE ==> spec_clamp_size((spec_clamp_size((size - 1) as u32) + 1) as u32)
            == size,
        MIN_SIZE <= spec_clamp_size(size) <= MAX_SIZE,
{
}


/// `a` is a subsequence of `b`: `a` is `b` with some entries left out.
pub open spec fn is_subsequence<A>(a: Seq<A>, b: Seq<A>) -> bool
    decreases b.len(),
{
    if a.len() == 0 {
        true
    } else if b.len() == 0 {
        false
    } else if a.last() == b.last() {
        is_subsequence(a.drop_last(), b.drop_last())
    } else {
        is_subsequence(a, b.drop_last())
    }
}

proof fn lemma_substring_transitive(h: Seq<char>, n2: Seq<char>, n1: Seq<char>)
    requires
        has_substring(n2, n1),
        has_substring(h, n2),
    ensures
        has_substring(h, n1),
{
    let i = choose|i: int| occurs_at(h, n2, i);
    let j = choose|j: int| occurs_at(n2, n1, j);
    assert(h.subrange(i + j, i + j + n1.len()) =~= n2.subrange(j, j + n1.len()));
    assert(occurs_at(h, n1, i + j));
}

proof fn lemma_empty_has_only_empty(n1: Seq<char>)
    requires
        has_substring(Seq::<char>::empty(), n1),
    ensures
        n1.len() == 0,
{
    let j = choose|j: int| occurs_at(Seq::<char>::empty(), n1, j);
}

/// A theme a search text finds, a search text inside it finds too.
proof fn lemma_theme_matches_narrowing(t: CursorTheme, n2: Seq<char>, n1: Seq<char>)
    requires
        has_substring(n2, n1),
    ensures
        theme_matches(t, n2) ==> theme_matches(t, n1),
{
    if n2.len() == 0 {
        assert(n2 =~= Seq::<char>::empty());
        lemma_empty_has_only_empty(n1);
    } else {
        if text_matches(t.name@, n2) {
            lemma_substring_transitive(lowercase(t.name@), n2, n1);
        }
        if text_matches(t.display_name@, n2) {
            lemma_substring_transitive(lowercase(t.display_name@), n2, n1);
        }
    }
}

/// A restore point a search text finds, a search text inside it finds too.
proof fn lemma_backup_matches_narrowing(b: BackupSet, n2: Seq<char>, n1: Seq<char>)
    requires
        has_substring(n2, n1),
    ensures
        backup_matches(b, n2) ==> backup_matches(b, n1),
{
    if n2.len() == 0 {
        assert(n2 =~= Seq::<char>::empty());
        lemma_empty_has_only_empty(n1);
    } else {
        if text_matches(b.theme@, n2) {
            lemma_substring_transitive(lowercase(b.theme@), n2, n1);
        }
        if text_matches(b.id@, n2) {
            lemma_substring_transitive(lowercase(b.id@), n2, n1);
        }
        if exists|j: int| 0 <= j < b.files@.len() && file_matches(#[trigger] b.files@[j], n2) {
            let j = choose|j: int| 0 <= j < b.files@.len() && file_matches(#[trigger] b.files@[j], n2);
            let f = b.files@[j];
            if text_matches(f.target@, n2) {
                lemma_substring_transitive(lowercase(f.target@), n2, n1);
            } else {
                lemma_substring_transitive(lowercase(f.original_path@), n2, n1);
            }
            assert(file_matches(b.files@[j], n1));
        }
    }
}

/// Narrowing the search never adds a theme: where the old search text occurs
/// in the new one, the themes found are a subsequence of those found before.
pub proof fn lemma_narrowing_search_themes(themes: Seq<CursorTheme>, n1: Seq<char>, n2: Seq<char>, n: nat)
    requires
        n <= usize::MAX,
        has_substring(n2, n1),
    ensures
        is_subsequence(matching_themes(themes, n2, n), matching_themes(themes, n1, n)),
    decreases n,
{
    if n > 0 {
        let m = (n - 1) as nat;
        lemma_narrowing_search_themes(themes, n1, n2, m);
        lemma_matching_themes_exact(themes, n2, m);
        lemma_theme_matches_narrowing(themes[m as int], n2, n1);
        let r1 = matching_themes(themes, n1, m);
        let r2 = matching_themes(themes, n2, m);
        let hit1 = theme_matches(themes[m as int], n1);
        let hit2 = theme_matches(themes[m as int], n2);
        if hit2 {
            assert(matching_themes(themes, n2, n).drop_last() == r2);
            assert(matching_themes(themes, n1, n).drop_last() == r1);
        } else if hit1 {
            let b = r1.push(m as usize);
            assert(b.drop_last() =~= r1);
            if r2.len() > 0 {
                assert(r2[r2.len() - 1] < m);
                assert(r2.last() != b.last());
            }
        }
    }
}


/// Narrowing the search never adds a restore point: where the old search
/// text occurs in the new one, the restore points found are a subsequence
/// of those found before.
pub proof fn lemma_narrowing_search_backups(backups: Seq<BackupSet>, n1: Seq<char>, n2: Seq<char>, n: nat)
    requires
        n <= usize::MAX,
        n <= backups.len(),
        has_substring(n2, n1),
    ensures
        is_subsequence(matching_backups(backups, n2, n), matching_backups(backups, n1, n)),
    decreases n,
{
    if n > 0 {
        let m = (n - 1) as nat;
        lemma_narrowing_search_backups(backups, n1, n2, m);
        lemma_matching_backups_in_range(backups, n2, m);
        lemma_backup_matches_narrowing(backups[m as int], n2, n1);
        let r1 = matching_backups(backups, n1, m);
        let r2 = matching_backups(backups, n2, m);
        let hit1 = backup_matches(backups[m as int], n1);
        let hit2 = backup_matches(backups[m as int], n2);
        if hit2 {
            assert(matching_backups(backups, n2, n).drop_last() == r2);
            assert(matching_backups(backups, n1, n).drop_last() == r1);
        } else if hit1 {
            let b = r1.push(m as usize);
            assert(b.drop_last() =~= r1);
            if r2.len() > 0 {
                assert(r2[r2.len() - 1] < m);
                assert(r2.last() != b.last());
            }
        }
    }
}

proof fn lemma_subsequence_theme_items(a: Seq<usize>, b: Seq<usize>)
    requires
        is_subsequence(a, b),
    ensures
        is_subsequence(theme_items(a), theme_items(b)),
    decreases b.len(),
{
    if a.len() > 0 && b.len() > 0 {
        assert(theme_items(a).drop_last() =~= theme_items(a.drop_last()));
        assert(theme_items(b).drop_last() =~= theme_items(b.drop_last()));
        assert(theme_items(a).last() == VisibleItem::Theme(a.last()));
        assert(theme_items(b).last() == VisibleItem::Theme(b.last()));
        if a.last() == b.last() {
            lemma_subsequence_theme_items(a.drop_last(), b.drop_last());
        } else {
            lemma_subsequence_theme_items(a, b.drop_last());
        }
    }
}

/// Narrowing the search never adds an entry: for two browser states that
/// differ only in the search text, where the first's lower-cased search
/// text occurs in the second's, the theme list and the restore points the
/// second finds are subsequences of those the first finds.
pub proof fn lemma_narrowing_search(a1: AppModel, a2: AppModel)
    requires
        a2 == (AppModel { filter: a2.filter, ..a1 }),
        has_substring(a2.needle(), a1.needle()),
        a1.themes.len() <= usize::MAX,
        a1.backups.len() <= usize::MAX,
    ensures
        is_subsequence(a2.visible_themes(), a1.visible_themes()),
        is_subsequence(a2.visible_items(), a1.visible_items()),
        is_subsequence(a2.visible_backups(), a1.visible_backups()),
{
    lemma_narrowing_search_themes(a1.themes, a1.needle(), a2.needle(), a1.themes.len());
    lemma_narrowing_search_backups(a1.backups, a1.needle(), a2.needle(), a1.backups.len());
    if a1.view == BrowserView::Themes {
        lemma_subsequence_theme_items(a2.visible_themes(), a1.visible_themes());
    }
}

} // verus!
