//! Cursor themes: where they come from, how they are named and grouped, how
//! an icon theme is recognised as a cursor theme, and how the themes found in
//! the search roots are merged.

use vstd::prelude::*;

use crate::text::{
    chars_of, is_prefix, lemma_lex_lt_total, lemma_lex_lt_transitive, lex_less, lex_lt, lines,
    lines_of, starts_with, str_eq, string_of, sub_chars, trim_chars, trim_start_seq,
};

verus! {

/// The search root a theme was found in, in priority order.
#[derive(Debug, Clone, Copy, PartialEq, Eq, Structural)]
pub enum ThemeSource {
    LocalShare,
    Icons,
    System,
}

impl ThemeSource {
    /// The directory of the search root, as shown to the user.
    pub fn label(&self) -> (l: &'static str)
        ensures
            l@ == match *self {
                ThemeSource::LocalShare => "~/.local/share/icons"@,
                ThemeSource::Icons => "~/.icons"@,
                ThemeSource::System => "/usr/share/icons"@,
            },
    {
        match self {
            ThemeSource::LocalShare => "~/.local/share/icons",
            ThemeSource::Icons => "~/.icons",
            ThemeSource::System => "/usr/share/icons",
        }
    }

    /// The source of the search root at position `index` of the roots:
    /// the first two are the user's, every later one the system's.
    pub fn for_root(index: usize) -> (s: ThemeSource)
        ensures
            s == (if index == 0 {
                ThemeSource::LocalShare
            } else if index == 1 {
                ThemeSource::Icons
            } else {
                ThemeSource::System
            }),
    {
        match index {
            0 => ThemeSource::LocalShare,
            1 => ThemeSource::Icons,
            _ => ThemeSource::System,
        }
    }
}

/// An installed cursor theme.
#[derive(Debug, PartialEq, Eq)]
pub struct CursorTheme {
    pub name: String,
    pub display_name: String,
    pub source_dir: String,
    pub source_kind: ThemeSource,
}

impl Clone for CursorTheme {
    fn clone(&self) -> (r: Self)
        ensures
            r == *self,
    {
        CursorTheme {
            name: self.name.clone(),
            display_name: self.display_name.clone(),
            source_dir: self.source_dir.clone(),
            source_kind: self.source_kind,
        }
    }
}

/// The length of the part of `s` before its first `_` or `-`.
pub open spec fn segment_len(s: Seq<char>) -> nat
    decreases s.len(),
{
    if s.len() == 0 || s[0] == '_' || s[0] == '-' {
        0
    } else {
        1 + segment_len(s.drop_first())
    }
}

/// The family a theme name belongs to: `Yaru` for names starting so,
/// `breeze` for names starting with `breeze` or `Breeze`, otherwise the part
/// before the first `_` or `-`, or the whole name where that part is empty.
pub open spec fn spec_family_name(theme: Seq<char>) -> Seq<char> {
    if is_prefix("Yaru"@, theme) {
        "Yaru"@
    } else if is_prefix("breeze"@, theme) || is_prefix("Breeze"@, theme) {
        "breeze"@
    } else if segment_len(theme) > 0 {
        theme.subrange(0, segment_len(theme) as int)
    } else {
        theme
    }
}

proof fn lemma_segment_len(s: Seq<char>, i: int)
    requires
        0 <= i <= s.len(),
        forall|k: int| 0 <= k < i ==> s[k] != '_' && s[k] != '-',
        i == s.len() || s[i] == '_' || s[i] == '-',
    ensures
        segment_len(s) == i,
    decreases i,
{
    if i > 0 {
        lemma_segment_len(s.drop_first(), i - 1);
    }
}

/// Guesses the family of a theme from its name.
pub fn family_name(theme: &str) -> (f: String)
    ensures
        f@ == spec_family_name(theme@),
{
    if starts_with(theme, "Yaru") {
        return String::from_str("Yaru");
    }
    if starts_with(theme, "breeze") || starts_with(theme, "Breeze") {
        return String::from_str("breeze");
    }
    let v = chars_of(theme);
    let mut i: usize = 0;
    while i < v.len() && v[i] != '_' && v[i] != '-'
        invariant
            i <= v.len(),
            v@ == theme@,
            forall|k: int| 0 <= k < i ==> v@[k] != '_' && v@[k] != '-',
        decreases v.len() - i,
    {
        i = i + 1;
    }
    proof {
        lemma_segment_len(v@, i as int);
    }
    if i > 0 {
        string_of(&sub_chars(&v, 0, i))
    } else {
        String::from_str(theme)
    }
}

/// Grouping is stable: the family of a family name is that family name.
#[verifier::spinoff_prover]
pub proof fn lemma_family_name_idempotent(theme: Seq<char>)
    ensures
        spec_family_name(spec_family_name(theme)) == spec_family_name(theme),
{
    reveal_strlit("Yaru");
    reveal_strlit("breeze");
    reveal_strlit("Breeze");
    let f = spec_family_name(theme);
    if is_prefix("Yaru"@, theme) {
        assert(f == "Yaru"@);
        assert(f.subrange(0, 4) =~= "Yaru"@);
        assert(is_prefix("Yaru"@, f));
        assert(spec_family_name(f) == f);
    } else if is_prefix("breeze"@, theme) || is_prefix("Breeze"@, theme) {
        assert(f == "breeze"@);
        assert(f.subrange(0, 6) =~= "breeze"@);
        assert(f.subrange(0, 4)[0] != "Yaru"@[0]);
        assert(!is_prefix("Yaru"@, f));
        assert(is_prefix("breeze"@, f));
        assert(spec_family_name(f) == f);
    } else if segment_len(theme) > 0 {
        let n = segment_len(theme) as int;
        lemma_segment_len_bound(theme);
        lemma_segment_len_stops(theme);
        assert forall|k: int| 0 <= k < n implies f[k] != '_' && f[k] != '-' by {
            lemma_segment_len_prefix_free(theme, k);
        }
        lemma_segment_len(f, n);
        assert(f.subrange(0, n) =~= f);
        if is_prefix("Yaru"@, f) {
            assert(theme.subrange(0, 4) =~= f.subrange(0, 4));
        }
        if is_prefix("breeze"@, f) {
            assert(theme.subrange(0, 6) =~= f.subrange(0, 6));
        }
        if is_prefix("Breeze"@, f) {
            assert(theme.subrange(0, 6) =~= f.subrange(0, 6));
        }
    } else {
    }
}

proof fn lemma_segment_len_stops(s: Seq<char>)
    ensures
        segment_len(s) == s.len() || s[segment_len(s) as int] == '_' || s[segment_len(s) as int] == '-',
    decreases s.len(),
{
    if s.len() > 0 && s[0] != '_' && s[0] != '-' {
        let t = s.drop_first();
        lemma_segment_len_stops(t);
        lemma_segment_len_bound(t);
        if segment_len(t) < t.len() {
            assert(s[segment_len(s) as int] == t[segment_len(t) as int]);
        }
    }
}

proof fn lemma_segment_len_prefix_free(s: Seq<char>, k: int)
    requires
        0 <= k < segment_len(s),
    ensures
        s[k] != '_' && s[k] != '-',
    decreases s.len(),
{
    lemma_segment_len_bound(s);
    if k > 0 {
        lemma_segment_len_prefix_free(s.drop_first(), k - 1);
        lemma_segment_len_bound(s);
        assert(s[k] == s.drop_first()[k - 1]);
    }
}

proof fn lemma_segment_len_bound(s: Seq<char>)
    ensures
        segment_len(s) <= s.len(),
    decreases s.len(),
{
    if s.len() > 0 {
        lemma_segment_len_bound(s.drop_first());
    }
}


/// Among the themes found, in the order found, position `i` holds the first
/// one with the name `name`.
pub open spec fn first_named(found: Seq<CursorTheme>, name: Seq<char>, i: int) -> bool {
    &&& 0 <= i < found.len()
    &&& found[i].name@ == name
    &&& forall|j: int| 0 <= j < i ==> found[j].name@ != name
}

/// Some theme of `merged` has the name `name`.
pub open spec fn has_name(merged: Seq<CursorTheme>, name: Seq<char>) -> bool {
    exists|k: int| 0 <= k < merged.len() && #[trigger] merged[k].name@ == name
}

/// `t` is, among the themes found, the first one found under its name.
pub open spec fn is_first_found(found: Seq<CursorTheme>, t: CursorTheme) -> bool {
    exists|i: int| first_named(found, t.name@, i) && #[trigger] found[i] == t
}

/// The merged theme list of the themes found: sorted by name with no name
/// twice, holding every name found, each name with the first theme found
/// under it (the search roots are read in priority order).
pub open spec fn merged_from(found: Seq<CursorTheme>, merged: Seq<CursorTheme>) -> bool {
    &&& forall|k: int, l: int| 0 <= k < l < merged.len() ==> lex_lt(#[trigger] merged[k].name@, #[trigger] merged[l].name@)
    &&& forall|i: int| 0 <= i < found.len() ==> has_name(merged, #[trigger] found[i].name@)
    &&& forall|k: int| 0 <= k < merged.len() ==> is_first_found(found, #[trigger] merged[k])
}

proof fn lemma_merge_known(pre: Seq<CursorTheme>, t: CursorTheme, r: Seq<CursorTheme>, p: int)
    requires
        merged_from(pre, r),
        0 <= p < r.len(),
        r[p].name@ == t.name@,
    ensures
        merged_from(pre.push(t), r),
{
    let next = pre.push(t);
    assert forall|j: int| 0 <= j < next.len() implies has_name(r, #[trigger] next[j].name@) by {
        if j < pre.len() {
            assert(next[j] == pre[j]);
            assert(has_name(r, pre[j].name@));
        } else {
            assert(r[p].name@ == next[j].name@);
        }
    }
    assert forall|k: int| 0 <= k < r.len() implies is_first_found(next, #[trigger] r[k]) by {
        assert(is_first_found(pre, r[k]));
        let j = choose|j: int| first_named(pre, r[k].name@, j) && #[trigger] pre[j] == r[k];
        assert(next[j] == pre[j]);
        assert(first_named(next, r[k].name@, j));
    }
}

proof fn lemma_merge_new(pre: Seq<CursorTheme>, t: CursorTheme, r: Seq<CursorTheme>, p: int)
    requires
        merged_from(pre, r),
        0 <= p <= r.len(),
        forall|k: int| 0 <= k < p ==> lex_lt(#[trigger] r[k].name@, t.name@),
        p < r.len() ==> lex_lt(t.name@, r[p].name@),
    ensures
        merged_from(pre.push(t), r.insert(p, t)),
{
    let next = pre.push(t);
    let r2 = r.insert(p, t);
    let name = t.name@;
    assert forall|k: int| 0 <= k < r.len() implies r[k].name@ != name by {
        if k < p {
            lemma_lex_lt_total(r[k].name@, name);
        } else {
            if k > p {
                lemma_lex_lt_transitive(name, r[p].name@, r[k].name@);
            }
            lemma_lex_lt_total(name, r[k].name@);
        }
    }
    assert forall|j: int| 0 <= j < pre.len() implies pre[j].name@ != name by {
        assert(has_name(r, pre[j].name@));
        let k = choose|k: int| 0 <= k < r.len() && #[trigger] r[k].name@ == pre[j].name@;
    }
    assert forall|k: int, l: int| 0 <= k < l < r2.len() implies lex_lt(r2[k].name@, r2[l].name@) by {
        if l < p {
            assert(r2[k] == r[k] && r2[l] == r[l]);
        } else if l == p {
            assert(r2[k] == r[k]);
        } else {
            assert(r2[l] == r[l - 1]);
            if l - 1 > p {
                lemma_lex_lt_transitive(name, r[p].name@, r[l - 1].name@);
            }
            if k < p {
                assert(r2[k] == r[k]);
                lemma_lex_lt_transitive(r[k].name@, name, r[l - 1].name@);
            } else if k > p {
                assert(r2[k] == r[k - 1]);
            }
        }
    }
    assert forall|j: int| 0 <= j < next.len() implies has_name(r2, #[trigger] next[j].name@) by {
        if j < pre.len() {
            assert(next[j] == pre[j]);
            assert(has_name(r, pre[j].name@));
            let k = choose|k: int| 0 <= k < r.len() && #[trigger] r[k].name@ == pre[j].name@;
            if k < p {
                assert(r2[k] == r[k]);
            } else {
                assert(r2[k + 1] == r[k]);
            }
        } else {
            assert(r2[p].name@ == next[j].name@);
        }
    }
    assert forall|k: int| 0 <= k < r2.len() implies is_first_found(next, #[trigger] r2[k]) by {
        if k == p {
            assert(first_named(next, r2[k].name@, pre.len() as int));
            assert(next[pre.len() as int] == r2[k]);
        } else {
            let ok = if k < p { k } else { k - 1 };
            assert(r2[k] == r[ok]);
            assert(is_first_found(pre, r[ok]));
            let j = choose|j: int| first_named(pre, r[ok].name@, j) && #[trigger] pre[j] == r[ok];
            assert(next[j] == pre[j]);
            assert(first_named(next, r2[k].name@, j));
        }
    }
}

/// Merges the themes found in the search roots, read in priority order:
/// the first theme found under a name wins, and the list is sorted by name.
pub fn collect_themes(found: &Vec<CursorTheme>) -> (merged: Vec<CursorTheme>)
    ensures
        merged_from(found@, merged@),
{
    let mut r: Vec<CursorTheme> = Vec::new();
    let mut i: usize = 0;
    while i < found.len()
        invariant
            i <= found.len(),
            merged_from(found@.subrange(0, i as int), r@),
        decreases found.len() - i,
    {
        let ghost pre = found@.subrange(0, i as int);
        assert(found@.subrange(0, i + 1) =~= pre.push(found@[i as int]));
        let name = &found[i].name;
        let mut p: usize = 0;
        while p < r.len() && lex_less(r[p].name.as_str(), name.as_str())
            invariant
                p <= r.len(),
                forall|k: int| 0 <= k < p ==> lex_lt(#[trigger] r@[k].name@, name@),
            decreases r.len() - p,
        {
            p = p + 1;
        }
        if p < r.len() && str_eq(r[p].name.as_str(), name.as_str()) {
            proof {
                lemma_merge_known(pre, found@[i as int], r@, p as int);
            }
        } else {
            proof {
                if p < r.len() {
                    lemma_lex_lt_total(r@[p as int].name@, name@);
                }
                lemma_merge_new(pre, found@[i as int], r@, p as int);
            }
            let t = found[i].clone();
            r.insert(p, t);
        }
        i = i + 1;
    }
    assert(found@.subrange(0, found.len() as int) =~= found@);
    r
}

/// The content of an `index.theme` file declares an inherited theme: a line
/// begins, after leading white space, with `Inherits=`.
pub open spec fn declares_inherits(content: Seq<char>) -> bool {
    exists|i: int| 0 <= i < lines(content).len() && is_prefix("Inherits="@, trim_start_seq(#[trigger] lines(content)[i], None))
}

/// Whether an `index.theme` file's content declares an inherited theme,
/// which makes an icon theme without a `cursors` directory a cursor theme.
pub fn index_declares_inherits(content: &str) -> (b: bool)
    ensures
        b == declares_inherits(content@),
{
    let ls = lines_of(&chars_of(content));
    let key = chars_of("Inherits=");
    let mut i: usize = 0;
    while i < ls.len()
        invariant
            i <= ls.len(),
            crate::text::views(ls@) == lines(content@),
            key@ == "Inherits="@,
            forall|k: int| 0 <= k < i ==> !is_prefix("Inherits="@, trim_start_seq(#[trigger] lines(content@)[k], None)),
        decreases ls.len() - i,
    {
        let t = trim_chars(&ls[i], None, true, false);
        assert(ls@[i as int]@ == lines(content@)[i as int]);
        if t.len() >= key.len() {
            let head = sub_chars(&t, 0, key.len());
            if str_eq(string_of(&head).as_str(), "Inherits=") {
                return true;
            }
        }
        i = i + 1;
    }
    false
}

/// The value of the first line that begins with `Name=`.
pub open spec fn name_entry(ls: Seq<Seq<char>>) -> Option<Seq<char>>
    decreases ls.len(),
{
    if ls.len() == 0 {
        None
    } else if is_prefix("Name="@, ls[0]) {
        Some(ls[0].subrange(5, ls[0].len() as int))
    } else {
        name_entry(ls.drop_first())
    }
}

/// The display name an `index.theme` file's content gives: the rest of its
/// first line that begins with `Name=`.
pub fn display_name_from_index(content: &str) -> (r: Option<String>)
    ensures
        r matches Some(n) ==> name_entry(lines(content@)) == Some(n@),
        r is None ==> name_entry(lines(content@)) is None,
{
    proof {
        reveal_strlit("Name=");
    }
    let ls = lines_of(&chars_of(content));
    let mut i: usize = 0;
    assert(lines(content@).subrange(0, lines(content@).len() as int) =~= lines(content@));
    while i < ls.len()
        invariant
            i <= ls.len(),
            crate::text::views(ls@) == lines(content@),
            name_entry(lines(content@)) == name_entry(lines(content@).subrange(i as int, lines(content@).len() as int)),
        decreases ls.len() - i,
    {
        proof {
            reveal_strlit("Name=");
        }
        let ghost rest = lines(content@).subrange(i as int, lines(content@).len() as int);
        assert(rest[0] == ls@[i as int]@);
        assert(rest.drop_first() =~= lines(content@).subrange(i + 1, lines(content@).len() as int));
        let line = &ls[i];
        if line.len() >= 5 {
            let head = sub_chars(line, 0, 5);
            if str_eq(string_of(&head).as_str(), "Name=") {
                return Some(string_of(&sub_chars(line, 5, line.len())));
            }
        }
        i = i + 1;
    }
    None
}

} // verus!
