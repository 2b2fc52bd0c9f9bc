//! Restore points: how they are named, how their metadata is read back, and
//! in which order they are listed.

use std::time::{Duration, SystemTime, UNIX_EPOCH};

use vstd::prelude::*;
use vstd::seq_lib::{to_multiset_build, to_multiset_insert};

use crate::error::CursorError;
use crate::text::{
    chars_of, decimal, is_whitespace, join_path, joined_path, lemma_decimal_digits,
    lemma_parse_decimal_roundtrip, lemma_trim_digits, lemma_trim_unpadded, parse_u128, parse_u32,
    lemma_lex_lt_total, lemma_lex_lt_transitive, lex_less, lex_lt, parse_unsigned, str_eq,
    string_of, sub_chars, trim, trim_seq, u128_to_string, u32_to_string,
};

verus! {

/// One managed file saved in a restore point.
#[derive(Debug, Clone, PartialEq, Eq)]
pub struct BackupFile {
    pub target: String,
    pub original_path: String,
    pub content_path: String,
    pub existed: bool,
}

/// A restore point: the cursor state before a change and the files it saved.
#[derive(Debug, Clone, PartialEq, Eq)]
pub struct BackupSet {
    pub id: String,
    pub theme: String,
    pub size: u32,
    pub dir: String,
    pub created_at: u128,
    pub files: Vec<BackupFile>,
}

/// A character that may stand in a restore point's directory name as it is.
pub open spec fn is_safe_char(c: char) -> bool {
    ('a' <= c && c <= 'z') || ('A' <= c && c <= 'Z') || ('0' <= c && c <= '9') || c == '_' || c == '-'
}

/// `c`, or `_` where it may not stand in a directory name.
pub open spec fn sanitized_char(c: char) -> char {
    if is_safe_char(c) {
        c
    } else {
        '_'
    }
}

/// Every character of `s` replaced by `sanitized_char`.
pub open spec fn spec_sanitize(s: Seq<char>) -> Seq<char> {
    s.map_values(|c: char| sanitized_char(c))
}

/// Replaces each character other than an ASCII letter, an ASCII digit, `_`
/// and `-` by `_`.
pub fn sanitize_target(target: &str) -> (r: String)
    ensures
        r@ == spec_sanitize(target@),
{
    let v = chars_of(target);
    let mut out: Vec<char> = Vec::new();
    let mut i: usize = 0;
    while i < v.len()
        invariant
            i <= v.len(),
            v@ == target@,
            out@ == v@.subrange(0, i as int).map_values(|c: char| sanitized_char(c)),
        decreases v.len() - i,
    {
        let c = v[i];
        let safe = ('a' <= c && c <= 'z') || ('A' <= c && c <= 'Z') || ('0' <= c && c <= '9')
            || c == '_' || c == '-';
        if safe {
            out.push(c);
        } else {
            out.push('_');
        }
        assert(v@.subrange(0, i + 1).map_values(|c: char| sanitized_char(c)) =~= v@.subrange(
            0,
            i as int,
        ).map_values(|c: char| sanitized_char(c)).push(sanitized_char(c)));
        i = i + 1;
    }
    assert(v@.subrange(0, v.len() as int) =~= v@);
    string_of(&out)
}

/// Sanitizing keeps the length, yields only safe characters, and changes
/// nothing the second time.
pub proof fn lemma_sanitize_safe_and_idempotent(s: Seq<char>)
    ensures
        spec_sanitize(s).len() == s.len(),
        forall|i: int| 0 <= i < s.len() ==> is_safe_char(#[trigger] spec_sanitize(s)[i]),
        spec_sanitize(spec_sanitize(s)) == spec_sanitize(s),
{
    assert(spec_sanitize(spec_sanitize(s)) =~= spec_sanitize(s));
}


/// A clock reading of the system.
#[verifier::external_type_specification]
#[verifier::external_body]
pub struct ExSystemTime(SystemTime);

/// Calls `SystemTime::now`, the current reading of the system clock; nothing
/// is stated of the reading, which depends on the clock.
#[verifier::external_body]
fn system_time_now() -> SystemTime {
    SystemTime::now()
}

/// Calls `SystemTime::duration_since` with `UNIX_EPOCH`, giving `None` where
/// it fails, which its documentation says happens when the reading lies
/// before the epoch; nothing is stated of the duration or of when it fails,
/// which depend on the clock.
#[verifier::external_body]
fn since_unix_epoch(t: &SystemTime) -> Option<Duration> {
    t.duration_since(UNIX_EPOCH).ok()
}

/// Calls `Duration::as_nanos`; nothing is stated of the number of nanoseconds.
#[verifier::external_body]
fn duration_as_nanos(d: &Duration) -> u128 {
    d.as_nanos()
}

/// A restore point being written.
#[derive(Debug, Clone, PartialEq, Eq)]
pub struct BackupSession {
    pub id: String,
    pub dir: String,
}

/// The id of a restore point: its creation time in nanoseconds since the
/// Unix epoch, the sanitized theme it restores and the size, joined by `-`.
pub open spec fn spec_session_id(created_at: nat, theme: Seq<char>, size: u32) -> Seq<char> {
    decimal(created_at) + "-"@ + spec_sanitize(theme) + "-"@ + decimal(size as nat)
}

impl BackupSession {
    /// The restore point created at `created_at` (nanoseconds since the
    /// Unix epoch) that restores `theme` at `size`, in its own directory
    /// under `backup_dir`.
    pub fn at(backup_dir: &str, theme: &str, size: u32, created_at: u128) -> (s: Self)
        ensures
            s.id@ == spec_session_id(created_at as nat, theme@, size),
            s.dir@ == joined_path(backup_dir@, s.id@),
    {
        let mut id = u128_to_string(created_at);
        id.append("-");
        id.append(sanitize_target(theme).as_str());
        id.append("-");
        id.append(u32_to_string(size).as_str());
        let dir = join_path(backup_dir, id.as_str());
        BackupSession { id, dir }
    }

    /// A restore point created now that restores `theme` at `size`; an error
    /// where the clock reads a time before the Unix epoch.
    pub fn new(backup_dir: &str, theme: &str, size: u32) -> (r: Result<Self, CursorError>)
        ensures
            r matches Ok(s) ==> exists|t: u128| #[trigger] spec_session_id(t as nat, theme@, size) == s.id@
                && s.dir@ == joined_path(backup_dir@, s.id@),
            r matches Err(e) ==> e == CursorError::ClockBeforeEpoch,
    {
        let now = system_time_now();
        match since_unix_epoch(&now) {
            Some(d) => {
                let t = duration_as_nanos(&d);
                let s = BackupSession::at(backup_dir, theme, size, t);
                assert(spec_session_id(t as nat, theme@, size) == s.id@);
                Ok(s)
            },
            None => Err(CursorError::ClockBeforeEpoch),
        }
    }
}

/// The position of the first `-` in `s`, or its length where there is none.
pub open spec fn dash_pos(s: Seq<char>) -> nat
    decreases s.len(),
{
    if s.len() == 0 || s[0] == '-' {
        0
    } else {
        1 + dash_pos(s.drop_first())
    }
}

proof fn lemma_dash_pos(s: Seq<char>, i: int)
    requires
        0 <= i <= s.len(),
        forall|k: int| 0 <= k < i ==> s[k] != '-',
        i == s.len() || s[i] == '-',
    ensures
        dash_pos(s) == i,
    decreases i,
{
    if i > 0 {
        lemma_dash_pos(s.drop_first(), i - 1);
    }
}

/// The creation time a restore point's id begins with: the number before
/// its first `-`, or 0 where there is no `-` or no number before it.
pub open spec fn spec_created_at(id: Seq<char>) -> u128 {
    if dash_pos(id) < id.len() {
        match parse_unsigned(id.subrange(0, dash_pos(id) as int), u128::MAX as nat) {
            Some(v) => v as u128,
            None => 0,
        }
    } else {
        0
    }
}

/// Reads the creation time at the front of a restore point's id.
pub fn created_at_from_id(id: &str) -> (t: u128)
    ensures
        t == spec_created_at(id@),
{
    let v = chars_of(id);
    let mut i: usize = 0;
    while i < v.len() && v[i] != '-'
        invariant
            i <= v.len(),
            v@ == id@,
            forall|k: int| 0 <= k < i ==> v@[k] != '-',
        decreases v.len() - i,
    {
        i = i + 1;
    }
    proof {
        lemma_dash_pos(v@, i as int);
    }
    if i == v.len() {
        return 0;
    }
    let head = string_of(&sub_chars(&v, 0, i));
    match parse_u128(head.as_str()) {
        Some(t) => t,
        None => 0,
    }
}

/// The theme a restore point restores, from the text of its `theme` file:
/// that text trimmed, or `unknown` where it could not be read.
pub open spec fn spec_read_theme(text: Option<Seq<char>>) -> Seq<char> {
    match text {
        Some(t) => trim_seq(t, None),
        None => "unknown"@,
    }
}

/// The size a restore point restores, from the text of its `size` file:
/// that text trimmed and read as a `u32`, or 0.
pub open spec fn spec_read_size(text: Option<Seq<char>>) -> u32 {
    match text {
        Some(t) => match parse_unsigned(trim_seq(t, None), u32::MAX as nat) {
            Some(v) => v as u32,
            None => 0,
        },
        None => 0,
    }
}

/// Whether a saved file existed, from the text of its `existed` file: that
/// text trimmed equals `true`; where it could not be read, whether the
/// saved content is there.
pub open spec fn spec_read_existed(text: Option<Seq<char>>, content_exists: bool) -> bool {
    match text {
        Some(t) => trim_seq(t, None) == "true"@,
        None => content_exists,
    }
}

/// The view of an optional string.
pub open spec fn opt_view(s: Option<String>) -> Option<Seq<char>> {
    match s {
        Some(t) => Some(t@),
        None => None,
    }
}

/// The restore point described by its directory name, the texts of its
/// `theme` and `size` files (`None` where unreadable), its directory and
/// its saved files.
pub fn backup_set_from(
    id: String,
    theme_text: Option<String>,
    size_text: Option<String>,
    dir: String,
    files: Vec<BackupFile>,
) -> (b: BackupSet)
    ensures
        b.id@ == id@,
        b.theme@ == spec_read_theme(opt_view(theme_text)),
        b.size == spec_read_size(opt_view(size_text)),
        b.dir@ == dir@,
        b.created_at == spec_created_at(id@),
        b.files@ == files@,
{
    let created_at = created_at_from_id(id.as_str());
    let theme = match &theme_text {
        Some(t) => trim(t.as_str()),
        None => String::from_str("unknown"),
    };
    let size = match &size_text {
        Some(t) => match parse_u32(trim(t.as_str()).as_str()) {
            Some(v) => v,
            None => 0,
        },
        None => 0,
    };
    BackupSet { id, theme, size, dir, created_at, files }
}

/// The saved file described by the texts of its `target`, `path` and
/// `existed` files (`None` where unreadable), the path of its saved content
/// and whether that content is there. An unreadable target or path reads
/// as `unknown`.
pub fn backup_file_from(
    target_text: Option<String>,
    path_text: Option<String>,
    content_path: String,
    existed_text: Option<String>,
    content_exists: bool,
) -> (f: BackupFile)
    ensures
        f.target@ == spec_read_theme(opt_view(target_text)),
        f.original_path@ == spec_read_theme(opt_view(path_text)),
        f.content_path@ == content_path@,
        f.existed == spec_read_existed(opt_view(existed_text), content_exists),
{
    let target = match &target_text {
        Some(t) => trim(t.as_str()),
        None => String::from_str("unknown"),
    };
    let original_path = match &path_text {
        Some(t) => trim(t.as_str()),
        None => String::from_str("unknown"),
    };
    let existed = match &existed_text {
        Some(t) => str_eq(trim(t.as_str()).as_str(), "true"),
        None => content_exists,
    };
    BackupFile { target, original_path, content_path, existed }
}

/// The text written to a saved file's `existed` file.
pub fn existed_text(existed: bool) -> (t: &'static str)
    ensures
        t@ == (if existed { "true"@ } else { "false"@ }),
{
    if existed {
        "true"
    } else {
        "false"
    }
}

/// The creation time read back from a restore point's id is the time it was
/// created with.
pub proof fn lemma_created_at_roundtrip(created_at: u128, theme: Seq<char>, size: u32)
    ensures
        spec_created_at(spec_session_id(created_at as nat, theme, size)) == created_at,
{
    reveal_strlit("-");
    let d = decimal(created_at as nat);
    let id = spec_session_id(created_at as nat, theme, size);
    lemma_decimal_digits(created_at as nat);
    assert forall|k: int| 0 <= k < d.len() implies id[k] != '-' by {
        assert(id[k] == d[k]);
        assert(crate::text::is_digit(d[k]));
    }
    assert(id[d.len() as int] == '-');
    lemma_dash_pos(id, d.len() as int);
    assert(id.subrange(0, d.len() as int) =~= d);
    lemma_parse_decimal_roundtrip(created_at as nat, u128::MAX as nat);
}

/// The size read back from a restore point's `size` file is the size written to it.
pub proof fn lemma_size_roundtrip(size: u32)
    ensures
        spec_read_size(Some(decimal(size as nat))) == size,
{
    lemma_decimal_digits(size as nat);
    lemma_trim_digits(decimal(size as nat));
    lemma_parse_decimal_roundtrip(size as nat, u32::MAX as nat);
}

/// Whether a saved file existed reads back as it was written.
pub proof fn lemma_existed_roundtrip(existed: bool, content_exists: bool)
    ensures
        spec_read_existed(Some(if existed { "true"@ } else { "false"@ }), content_exists) == existed,
{
    reveal_strlit("true");
    reveal_strlit("false");
    lemma_trim_unpadded("true"@);
    lemma_trim_unpadded("false"@);
    assert("false"@ != "true"@) by {
        assert("false"@.len() != "true"@.len());
    }
}

/// A theme name without surrounding white space reads back from the
/// `theme` file as it was written.
pub proof fn lemma_theme_roundtrip(theme: Seq<char>)
    requires
        theme.len() > 0 ==> !is_whitespace(theme[0]) && !is_whitespace(theme.last()),
    ensures
        spec_read_theme(Some(theme)) == theme,
{
    lemma_trim_unpadded(theme);
}


/// The restore points created at time `t`, in order.
pub open spec fn created_at_eq(s: Seq<BackupSet>, t: u128) -> Seq<BackupSet>
    decreases s.len(),
{
    if s.len() == 0 {
        Seq::<BackupSet>::empty()
    } else {
        let r = created_at_eq(s.drop_last(), t);
        if s.last().created_at == t {
            r.push(s.last())
        } else {
            r
        }
    }
}

/// Newest first: no restore point comes before a newer one.
pub open spec fn newest_first(s: Seq<BackupSet>) -> bool {
    forall|k: int, l: int| 0 <= k < l < s.len() ==> (#[trigger] s[k]).created_at >= (#[trigger] s[l]).created_at
}

/// `sorted` is `orig` sorted newest first, keeping the order of restore
/// points created at the same time (a stable sort).
pub open spec fn sorted_newest_first(orig: Seq<BackupSet>, sorted: Seq<BackupSet>) -> bool {
    &&& newest_first(sorted)
    &&& forall|t: u128| #[trigger] created_at_eq(sorted, t) == created_at_eq(orig, t)
}

proof fn lemma_created_at_eq_concat(a: Seq<BackupSet>, b: Seq<BackupSet>, t: u128)
    ensures
        created_at_eq(a + b, t) == created_at_eq(a, t) + created_at_eq(b, t),
    decreases b.len(),
{
    if b.len() == 0 {
        assert(a + b =~= a);
        assert(created_at_eq(a, t) + created_at_eq(b, t) =~= created_at_eq(a, t));
    } else {
        lemma_created_at_eq_concat(a, b.drop_last(), t);
        assert((a + b).drop_last() =~= a + b.drop_last());
        assert((a + b).last() == b.last());
        if b.last().created_at == t {
            assert(created_at_eq(a, t) + created_at_eq(b.drop_last(), t).push(b.last()) =~= (
            created_at_eq(a, t) + created_at_eq(b.drop_last(), t)).push(b.last()));
        }
    }
}

proof fn lemma_created_at_eq_none(a: Seq<BackupSet>, t: u128)
    requires
        forall|i: int| 0 <= i < a.len() ==> (#[trigger] a[i]).created_at != t,
    ensures
        created_at_eq(a, t) == Seq::<BackupSet>::empty(),
    decreases a.len(),
{
    if a.len() > 0 {
        let init = a.drop_last();
        assert forall|i: int| 0 <= i < init.len() implies (#[trigger] init[i]).created_at != t by {
            assert(init[i] == a[i]);
        }
        lemma_created_at_eq_none(init, t);
        assert(a[a.len() - 1].created_at != t);
    }
}

proof fn lemma_insert_newest(r: Seq<BackupSet>, x: BackupSet, p: int, t: u128)
    requires
        newest_first(r),
        0 <= p <= r.len(),
        forall|k: int| 0 <= k < p ==> (#[trigger] r[k]).created_at >= x.created_at,
        p < r.len() ==> r[p].created_at < x.created_at,
    ensures
        newest_first(r.insert(p, x)),
        created_at_eq(r.insert(p, x), t) == if x.created_at == t {
            created_at_eq(r, t).push(x)
        } else {
            created_at_eq(r, t)
        },
{
    let a = r.subrange(0, p);
    let b = r.subrange(p, r.len() as int);
    let r2 = r.insert(p, x);
    assert(r =~= a + b);
    assert(r2 =~= a + seq![x] + b);
    assert forall|i: int| 0 <= i < b.len() implies (#[trigger] b[i]).created_at < x.created_at by {
        assert(b[i] == r[p + i]);
        if i > 0 {
            assert(r[p].created_at >= r[p + i].created_at);
        }
    }
    lemma_created_at_eq_concat(a, b, t);
    lemma_created_at_eq_concat(a + seq![x], b, t);
    lemma_created_at_eq_concat(a, seq![x], t);
    assert(seq![x].drop_last() =~= Seq::<BackupSet>::empty());
    assert(created_at_eq(Seq::<BackupSet>::empty(), t) == Seq::<BackupSet>::empty());
    assert(seq![x].last() == x);
    assert(created_at_eq(seq![x], t) =~= (if x.created_at == t {
        seq![x]
    } else {
        Seq::<BackupSet>::empty()
    }));
    assert(created_at_eq(r2, t) == created_at_eq(a, t) + created_at_eq(seq![x], t) + created_at_eq(b, t));
    assert(created_at_eq(r, t) == created_at_eq(a, t) + created_at_eq(b, t));
    if x.created_at == t {
        lemma_created_at_eq_none(b, t);
        assert(created_at_eq(r, t) =~= created_at_eq(a, t));
        assert(created_at_eq(r2, t) =~= created_at_eq(a, t).push(x));
    } else {
        assert(created_at_eq(r2, t) =~= created_at_eq(r, t));
    }
    assert forall|k: int, l: int| 0 <= k < l < r2.len() implies (#[trigger] r2[k]).created_at
        >= (#[trigger] r2[l]).created_at by {
        if l < p {
            assert(r2[k] == r[k] && r2[l] == r[l]);
        } else if l == p {
            assert(r2[k] == r[k]);
        } else if k < p {
            assert(r2[k] == r[k] && r2[l] == r[l - 1]);
        } else if k == p {
            assert(r2[l] == r[l - 1]);
            assert(r2[l] == b[l - 1 - p]);
        } else {
            assert(r2[k] == r[k - 1] && r2[l] == r[l - 1]);
        }
    }
}

/// Sorts restore points newest first, keeping the order of those created
/// at the same time, as a stable sort by creation time, descending.
pub fn sort_newest_first(sets: Vec<BackupSet>) -> (r: Vec<BackupSet>)
    ensures
        sorted_newest_first(sets@, r@),
        r@.len() == sets@.len(),
        r@.to_multiset() == sets@.to_multiset(),
{
    let ghost orig = sets@;
    let mut rest = sets;
    let mut r: Vec<BackupSet> = Vec::new();
    let ghost mut done: int = 0;
    assert(orig.subrange(0, 0) =~= r@);
    while rest.len() > 0
        invariant
            0 <= done <= orig.len(),
            rest@ == orig.subrange(done, orig.len() as int),
            newest_first(r@),
            r@.len() == done,
            r@.to_multiset() == orig.subrange(0, done).to_multiset(),
            forall|t: u128| #[trigger] created_at_eq(r@, t) == created_at_eq(orig.subrange(0, done), t),
        decreases rest.len(),
    {
        let x = rest.remove(0);
        assert(x == orig[done]);
        let mut p: usize = 0;
        while p < r.len() && r[p].created_at >= x.created_at
            invariant
                p <= r.len(),
                forall|k: int| 0 <= k < p ==> (#[trigger] r@[k]).created_at >= x.created_at,
            decreases r.len() - p,
        {
            p = p + 1;
        }
        let ghost before = r@;
        let ghost xv = x;
        r.insert(p, x);
        proof {
            assert(orig.subrange(0, done + 1) =~= orig.subrange(0, done).push(xv));
            to_multiset_insert(before, p as int, xv);
            to_multiset_build(orig.subrange(0, done), xv);
            assert forall|t: u128| #[trigger] created_at_eq(r@, t) == created_at_eq(orig.subrange(0, done + 1), t) by {
                lemma_insert_newest(before, xv, p as int, t);
                assert(orig.subrange(0, done + 1).drop_last() =~= orig.subrange(0, done));
            }
            lemma_insert_newest(before, xv, p as int, 0);
            assert(rest@ =~= orig.subrange(done + 1, orig.len() as int));
            done = done + 1;
        }
    }
    assert(orig.subrange(0, done) =~= orig);
    r
}

/// The saved files with the target `name`, in order.
pub open spec fn target_eq(s: Seq<BackupFile>, name: Seq<char>) -> Seq<BackupFile>
    decreases s.len(),
{
    if s.len() == 0 {
        Seq::<BackupFile>::empty()
    } else {
        let r = target_eq(s.drop_last(), name);
        if s.last().target@ == name {
            r.push(s.last())
        } else {
            r
        }
    }
}

/// By target: no saved file comes before one whose target comes first.
pub open spec fn by_target(s: Seq<BackupFile>) -> bool {
    forall|k: int, l: int| 0 <= k < l < s.len() ==> !lex_lt((#[trigger] s[l]).target@, (#[trigger] s[k]).target@)
}

/// `sorted` is `orig` sorted by target, keeping the order of files with the
/// same target (a stable sort).
pub open spec fn sorted_by_target(orig: Seq<BackupFile>, sorted: Seq<BackupFile>) -> bool {
    &&& by_target(sorted)
    &&& forall|name: Seq<char>| #[trigger] target_eq(sorted, name) == target_eq(orig, name)
}

proof fn lemma_target_eq_concat(a: Seq<BackupFile>, b: Seq<BackupFile>, name: Seq<char>)
    ensures
        target_eq(a + b, name) == target_eq(a, name) + target_eq(b, name),
    decreases b.len(),
{
    if b.len() == 0 {
        assert(a + b =~= a);
        assert(target_eq(a, name) + target_eq(b, name) =~= target_eq(a, name));
    } else {
        lemma_target_eq_concat(a, b.drop_last(), name);
        assert((a + b).drop_last() =~= a + b.drop_last());
        assert((a + b).last() == b.last());
        if b.last().target@ == name {
            assert(target_eq(a, name) + target_eq(b.drop_last(), name).push(b.last()) =~= (
            target_eq(a, name) + target_eq(b.drop_last(), name)).push(b.last()));
        }
    }
}

proof fn lemma_target_eq_none(a: Seq<BackupFile>, name: Seq<char>)
    requires
        forall|i: int| 0 <= i < a.len() ==> (#[trigger] a[i]).target@ != name,
    ensures
        target_eq(a, name) == Seq::<BackupFile>::empty(),
    decreases a.len(),
{
    if a.len() > 0 {
        let init = a.drop_last();
        assert forall|i: int| 0 <= i < init.len() implies (#[trigger] init[i]).target@ != name by {
            assert(init[i] == a[i]);
        }
        lemma_target_eq_none(init, name);
        assert(a[a.len() - 1].target@ != name);
    }
}

proof fn lemma_insert_by_target(r: Seq<BackupFile>, x: BackupFile, p: int, name: Seq<char>)
    requires
        by_target(r),
        0 <= p <= r.len(),
        forall|k: int| 0 <= k < p ==> !lex_lt(x.target@, (#[trigger] r[k]).target@),
        p < r.len() ==> lex_lt(x.target@, r[p].target@),
    ensures
        by_target(r.insert(p, x)),
        target_eq(r.insert(p, x), name) == if x.target@ == name {
            target_eq(r, name).push(x)
        } else {
            target_eq(r, name)
        },
{
    let a = r.subrange(0, p);
    let b = r.subrange(p, r.len() as int);
    let r2 = r.insert(p, x);
    assert(r =~= a + b);
    assert(r2 =~= a + seq![x] + b);
    assert forall|i: int| 0 <= i < b.len() implies lex_lt(x.target@, (#[trigger] b[i]).target@) by {
        assert(b[i] == r[p + i]);
        if i > 0 {
            assert(!lex_lt(r[p + i].target@, r[p].target@));
            lemma_lex_lt_total(r[p + i].target@, r[p].target@);
            if r[p + i].target@ != r[p].target@ {
                lemma_lex_lt_transitive(x.target@, r[p].target@, r[p + i].target@);
            }
        }
    }
    lemma_target_eq_concat(a, b, name);
    lemma_target_eq_concat(a + seq![x], b, name);
    lemma_target_eq_concat(a, seq![x], name);
    assert(seq![x].drop_last() =~= Seq::<BackupFile>::empty());
    assert(target_eq(Seq::<BackupFile>::empty(), name) == Seq::<BackupFile>::empty());
    assert(seq![x].last() == x);
    assert(target_eq(seq![x], name) =~= (if x.target@ == name {
        seq![x]
    } else {
        Seq::<BackupFile>::empty()
    }));
    assert(target_eq(r2, name) == target_eq(a, name) + target_eq(seq![x], name) + target_eq(b, name));
    assert(target_eq(r, name) == target_eq(a, name) + target_eq(b, name));
    if x.target@ == name {
        assert forall|i: int| 0 <= i < b.len() implies (#[trigger] b[i]).target@ != name by {
            lemma_lex_lt_total(x.target@, b[i].target@);
        }
        lemma_target_eq_none(b, name);
        assert(target_eq(r, name) =~= target_eq(a, name));
        assert(target_eq(r2, name) =~= target_eq(a, name).push(x));
    } else {
        assert(target_eq(r2, name) =~= target_eq(r, name));
    }
    assert forall|k: int, l: int| 0 <= k < l < r2.len() implies !lex_lt(
        (#[trigger] r2[l]).target@,
        (#[trigger] r2[k]).target@,
    ) by {
        if l < p {
            assert(r2[k] == r[k] && r2[l] == r[l]);
        } else if l == p {
            assert(r2[k] == r[k]);
        } else if k < p {
            assert(r2[k] == r[k] && r2[l] == r[l - 1]);
            assert(r2[l] == b[l - 1 - p]);
            lemma_lex_lt_total(x.target@, r[k].target@);
            lemma_lex_lt_total(r[l - 1].target@, r[k].target@);
            if lex_lt(r[l - 1].target@, r[k].target@) {
                if x.target@ == r[k].target@ {
                } else {
                    lemma_lex_lt_transitive(r[k].target@, x.target@, r[l - 1].target@);
                }
            }
        } else if k == p {
            assert(r2[l] == r[l - 1]);
            assert(r2[l] == b[l - 1 - p]);
            lemma_lex_lt_total(x.target@, r[l - 1].target@);
        } else {
            assert(r2[k] == r[k - 1] && r2[l] == r[l - 1]);
        }
    }
}

/// Sorts saved files by target, keeping the order of files with the same
/// target, as a stable sort by target.
pub fn sort_files_by_target(files: Vec<BackupFile>) -> (r: Vec<BackupFile>)
    ensures
        sorted_by_target(files@, r@),
        r@.len() == files@.len(),
        r@.to_multiset() == files@.to_multiset(),
{
    let ghost orig = files@;
    let mut rest = files;
    let mut r: Vec<BackupFile> = Vec::new();
    let ghost mut done: int = 0;
    assert(orig.subrange(0, 0) =~= r@);
    while rest.len() > 0
        invariant
            0 <= done <= orig.len(),
            rest@ == orig.subrange(done, orig.len() as int),
            by_target(r@),
            r@.len() == done,
            r@.to_multiset() == orig.subrange(0, done).to_multiset(),
            forall|name: Seq<char>| #[trigger] target_eq(r@, name) == target_eq(orig.subrange(0, done), name),
        decreases rest.len(),
    {
        let x = rest.remove(0);
        assert(x == orig[done]);
        let mut p: usize = 0;
        while p < r.len() && !lex_less(x.target.as_str(), r[p].target.as_str())
            invariant
                p <= r.len(),
                forall|k: int| 0 <= k < p ==> !lex_lt(x.target@, (#[trigger] r@[k]).target@),
            decreases r.len() - p,
        {
            p = p + 1;
        }
        let ghost before = r@;
        let ghost xv = x;
        r.insert(p, x);
        proof {
            assert(orig.subrange(0, done + 1) =~= orig.subrange(0, done).push(xv));
            to_multiset_insert(before, p as int, xv);
            to_multiset_build(orig.subrange(0, done), xv);
            assert forall|name: Seq<char>| #[trigger] target_eq(r@, name) == target_eq(orig.subrange(0, done + 1), name) by {
                lemma_insert_by_target(before, xv, p as int, name);
                assert(orig.subrange(0, done + 1).drop_last() =~= orig.subrange(0, done));
            }
            lemma_insert_by_target(before, xv, p as int, Seq::<char>::empty());
            assert(rest@ =~= orig.subrange(done + 1, orig.len() as int));
            done = done + 1;
        }
    }
    assert(orig.subrange(0, done) =~= orig);
    r
}

} // verus!
