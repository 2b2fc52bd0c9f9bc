//! What applying a cursor reports, target by target.

pub mod default_icon;
pub mod flatpak;
pub mod gtk;
pub mod hyprland;
pub mod xresources;

use vstd::prelude::*;

use crate::text::{chars_of, decimal, join_chars, join_with, string_of, views};
use crate::theme::{CursorTheme, ThemeSource};

verus! {

/// The outcome of applying a cursor to one target.
#[derive(Debug, Clone, PartialEq, Eq)]
pub struct ApplyReport {
    pub target: &'static str,
    pub changed: bool,
    pub skipped: bool,
    pub message: String,
}

impl ApplyReport {
    /// The target was updated.
    pub fn changed(target: &'static str, message: String) -> (r: Self)
        ensures
            r.target == target,
            r.changed,
            !r.skipped,
            r.message@ == message@,
    {
        ApplyReport { target, changed: true, skipped: false, message }
    }

    /// The target already held the cursor.
    pub fn unchanged(target: &'static str, message: String) -> (r: Self)
        ensures
            r.target == target,
            !r.changed,
            !r.skipped,
            r.message@ == message@,
    {
        ApplyReport { target, changed: false, skipped: false, message }
    }

    /// The target was left alone because its tool is missing.
    pub fn skipped(target: &'static str, message: String) -> (r: Self)
        ensures
            r.target == target,
            !r.changed,
            r.skipped,
            r.message@ == message@,
    {
        ApplyReport { target, changed: false, skipped: true, message }
    }
}

/// The targets of the skipped reports, in order.
pub open spec fn skipped_targets(reports: Seq<ApplyReport>) -> Seq<Seq<char>>
    decreases reports.len(),
{
    if reports.len() == 0 {
        Seq::<Seq<char>>::empty()
    } else {
        let r = skipped_targets(reports.drop_last());
        if reports.last().skipped {
            r.push(reports.last().target@)
        } else {
            r
        }
    }
}

/// The one-line summary of applying `theme` at `size`: the size where no
/// target was skipped, otherwise the skipped targets.
pub open spec fn spec_summary(theme: Seq<char>, size: u32, reports: Seq<ApplyReport>) -> Seq<char> {
    if skipped_targets(reports).len() == 0 {
        "Applied "@ + theme + " at size "@ + decimal(size as nat)
    } else {
        "Applied "@ + theme + "; skipped "@ + join_with(skipped_targets(reports), ", "@)
    }
}

/// Summarizes the reports of applying `theme` at `size` in one line.
pub fn summarize_apply(theme: &str, size: u32, reports: &[ApplyReport]) -> (s: String)
    ensures
        s@ == spec_summary(theme@, size, reports@),
{
    let mut skipped: Vec<Vec<char>> = Vec::new();
    let mut i: usize = 0;
    while i < reports.len()
        invariant
            i <= reports.len(),
            views(skipped@) == skipped_targets(reports@.subrange(0, i as int)),
        decreases reports.len() - i,
    {
        assert(reports@.subrange(0, i + 1).drop_last() =~= reports@.subrange(0, i as int));
        if reports[i].skipped {
            let ghost before = views(skipped@);
            let t = chars_of(reports[i].target);
            let ghost tv = t@;
            skipped.push(t);
            assert(views(skipped@) =~= before.push(tv));
        }
        i = i + 1;
    }
    assert(reports@.subrange(0, reports.len() as int) =~= reports@);
    let mut out = String::from_str("Applied ");
    out.append(theme);
    if skipped.len() == 0 {
        out.append(" at size ");
        out.append(crate::text::u32_to_string(size).as_str());
    } else {
        out.append("; skipped ");
        let joined = join_chars(&skipped, &chars_of(", "));
        out.append(string_of(&joined).as_str());
    }
    out
}

/// The theme that restoring a cursor by name applies at run time: the name,
/// also as display name, in the user's `~/.icons`.
pub fn runtime_theme(theme: &str, home: &str) -> (t: CursorTheme)
    ensures
        t.name@ == theme@,
        t.display_name@ == theme@,
        t.source_dir@ == crate::text::joined_path(crate::text::joined_path(home@, ".icons"@), theme@),
        t.source_kind == ThemeSource::Icons,
{
    let icons = crate::text::join_path(home, ".icons");
    CursorTheme {
        name: String::from_str(theme),
        display_name: String::from_str(theme),
        source_dir: crate::text::join_path(icons.as_str(), theme),
        source_kind: ThemeSource::Icons,
    }
}

} // verus!
