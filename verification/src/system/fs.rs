//! The text of the files the tool manages: how lines are replaced in a
//! shared file, and when a file already holds what would be written.

use vstd::prelude::*;

use crate::system::backup::BackupFile;
use crate::text::{
    chars_of, ends_with_cr, is_prefix, join_chars, join_with, lemma_lines_no_newline,
    lemma_lines_of_joined, lemma_lines_of_newline, lines, lines_of, no_newline, string_of, strip_cr, views,
};

verus! {

/// What writing a managed file did.
#[derive(Debug, Clone)]
pub struct WriteReport {
    pub path: String,
    pub backup: Option<BackupFile>,
    pub changed: bool,
}

/// The line begins with one of the prefixes.
pub open spec fn has_any_prefix(line: Seq<char>, prefixes: Seq<Seq<char>>) -> bool {
    exists|j: int| 0 <= j < prefixes.len() && is_prefix(#[trigger] prefixes[j], line)
}

/// The lines that begin with none of the prefixes, in order.
pub open spec fn kept_lines(ls: Seq<Seq<char>>, prefixes: Seq<Seq<char>>) -> Seq<Seq<char>>
    decreases ls.len(),
{
    if ls.len() == 0 {
        Seq::<Seq<char>>::empty()
    } else {
        let r = kept_lines(ls.drop_last(), prefixes);
        if has_any_prefix(ls.last(), prefixes) {
            r
        } else {
            r.push(ls.last())
        }
    }
}

/// The lines that are not empty, in order.
pub open spec fn nonempty_lines(ls: Seq<Seq<char>>) -> Seq<Seq<char>>
    decreases ls.len(),
{
    if ls.len() == 0 {
        Seq::<Seq<char>>::empty()
    } else {
        let r = nonempty_lines(ls.drop_last());
        if ls.last().len() == 0 {
            r
        } else {
            r.push(ls.last())
        }
    }
}

/// The text of a file after replacing lines: the lines of `existing` that
/// begin with none of the prefixes, then the new lines, without empty
/// lines, each ended by a newline (a lone newline where none is left).
pub open spec fn updated_content(
    existing: Seq<char>,
    prefixes: Seq<Seq<char>>,
    appended: Seq<Seq<char>>,
) -> Seq<char> {
    join_with(nonempty_lines(kept_lines(lines(existing), prefixes) + appended), "\n"@) + seq!['\n']
}

/// The strings' character sequences.
pub open spec fn str_views(v: Seq<&str>) -> Seq<Seq<char>> {
    v.map_values(|s: &str| s@)
}

/// The strings' character sequences.
pub open spec fn string_views(v: Seq<String>) -> Seq<Seq<char>> {
    v.map_values(|s: String| s@)
}

fn has_any_prefix_exec(line: &Vec<char>, prefixes: &Vec<Vec<char>>) -> (b: bool)
    ensures
        b == has_any_prefix(line@, views(prefixes@)),
{
    let mut j: usize = 0;
    while j < prefixes.len()
        invariant
            j <= prefixes.len(),
            forall|k: int| 0 <= k < j ==> !is_prefix(#[trigger] views(prefixes@)[k], line@),
        decreases prefixes.len() - j,
    {
        let p = &prefixes[j];
        if p.len() <= line.len() {
            let mut k: usize = 0;
            let mut same = true;
            while k < p.len()
                invariant
                    k <= p.len() <= line.len(),
                    same == forall|t: int| 0 <= t < k ==> line@[t] == p@[t],
                decreases p.len() - k,
            {
                if line[k] != p[k] {
                    same = false;
                }
                k = k + 1;
            }
            if same {
                assert(line@.subrange(0, p@.len() as int) =~= p@);
                assert(is_prefix(views(prefixes@)[j as int], line@));
                return true;
            }
            assert(!is_prefix(views(prefixes@)[j as int], line@)) by {
                if line@.subrange(0, p@.len() as int) == p@ {
                    assert forall|t: int| 0 <= t < p.len() implies line@[t] == p@[t] by {
                        assert(line@.subrange(0, p@.len() as int)[t] == line@[t]);
                    }
                }
            }
        }
        j = j + 1;
    }
    false
}

/// Replaces lines of a file's text: drops every line of `existing` that
/// begins with one of `remove_prefixes`, adds `append_lines`, drops empty
/// lines, and ends each line with a newline.
pub fn update_lines_content(existing: &str, remove_prefixes: &[&str], append_lines: &[String]) -> (r: String)
    ensures
        r@ == updated_content(existing@, str_views(remove_prefixes@), string_views(append_lines@)),
{
    let all = lines_of(&chars_of(existing));
    let mut prefixes: Vec<Vec<char>> = Vec::new();
    let mut j: usize = 0;
    while j < remove_prefixes.len()
        invariant
            j <= remove_prefixes.len(),
            views(prefixes@) == str_views(remove_prefixes@).subrange(0, j as int),
        decreases remove_prefixes.len() - j,
    {
        let p = chars_of(remove_prefixes[j]);
        let ghost before = views(prefixes@);
        let ghost pv = p@;
        assert(pv == str_views(remove_prefixes@)[j as int]);
        prefixes.push(p);
        assert(views(prefixes@) =~= before.push(pv));
        assert(views(prefixes@) =~= str_views(remove_prefixes@).subrange(0, j + 1));
        j = j + 1;
    }
    assert(str_views(remove_prefixes@).subrange(0, remove_prefixes@.len() as int) =~= str_views(
        remove_prefixes@,
    ));
    let ghost ps = views(prefixes@);
    let ghost src = lines(existing@);
    let mut kept: Vec<Vec<char>> = Vec::new();
    let mut i: usize = 0;
    while i < all.len()
        invariant
            i <= all.len(),
            views(all@) == src,
            views(prefixes@) == ps,
            views(kept@) == kept_lines(src.subrange(0, i as int), ps),
        decreases all.len() - i,
    {
        let ghost before = views(kept@);
        assert(src.subrange(0, i + 1).drop_last() =~= src.subrange(0, i as int));
        if !has_any_prefix_exec(&all[i], &prefixes) {
            let line = crate::text::sub_chars(&all[i], 0, all[i].len());
            assert(line@ =~= all@[i as int]@);
            kept.push(line);
            assert(views(kept@) =~= before.push(src[i as int]));
        }
        i = i + 1;
    }
    assert(src.subrange(0, all.len() as int) =~= src);
    let ghost base = views(kept@);
    let ghost added = string_views(append_lines@);
    let mut k: usize = 0;
    while k < append_lines.len()
        invariant
            k <= append_lines.len(),
            added == string_views(append_lines@),
            added.len() == append_lines@.len(),
            views(kept@) == base + added.subrange(0, k as int),
        decreases append_lines.len() - k,
    {
        let a = chars_of(append_lines[k].as_str());
        let ghost before = views(kept@);
        let ghost av = a@;
        assert(av == added[k as int]);
        kept.push(a);
        assert(views(kept@) =~= before.push(av));
        assert(views(kept@) =~= base + added.subrange(0, k + 1));
        k = k + 1;
    }
    assert(added.subrange(0, append_lines@.len() as int) =~= added);
    let ghost joined = views(kept@);
    let mut filled: Vec<Vec<char>> = Vec::new();
    let mut m: usize = 0;
    while m < kept.len()
        invariant
            m <= kept.len(),
            views(kept@) == joined,
            views(filled@) == nonempty_lines(joined.subrange(0, m as int)),
        decreases kept.len() - m,
    {
        let ghost before = views(filled@);
        assert(joined.subrange(0, m + 1).drop_last() =~= joined.subrange(0, m as int));
        if kept[m].len() > 0 {
            let line = crate::text::sub_chars(&kept[m], 0, kept[m].len());
            assert(line@ =~= kept@[m as int]@);
            filled.push(line);
            assert(views(filled@) =~= before.push(joined[m as int]));
        }
        m = m + 1;
    }
    assert(joined.subrange(0, kept.len() as int) =~= joined);
    let sep = chars_of("\n");
    let mut out = join_chars(&filled, &sep);
    out.push('\n');
    string_of(&out)
}

/// A file already holds `content`: it was read and its text equals `content`.
pub fn content_is_current(existing: Option<&str>, content: &str) -> (b: bool)
    ensures
        b == match existing {
            Some(e) => e@ == content@,
            None => false,
        },
{
    match existing {
        Some(e) => {
            let a = chars_of(e);
            let c = chars_of(content);
            if a.len() != c.len() {
                assert(a@.len() != c@.len());
                return false;
            }
            let mut i: usize = 0;
            while i < a.len()
                invariant
                    i <= a.len() == c.len(),
                    existing == Some(e),
                    a@ == e@,
                    c@ == content@,
                    forall|k: int| 0 <= k < i ==> a@[k] == c@[k],
                decreases a.len() - i,
            {
                if a[i] != c[i] {
                    assert(a@[i as int] != c@[i as int]);
                    return false;
                }
                i = i + 1;
            }
            assert(a@ =~= c@);
            true
        },
        None => false,
    }
}


proof fn lemma_kept_concat(a: Seq<Seq<char>>, b: Seq<Seq<char>>, p: Seq<Seq<char>>)
    ensures
        kept_lines(a + b, p) == kept_lines(a, p) + kept_lines(b, p),
    decreases b.len(),
{
    if b.len() == 0 {
        assert(a + b =~= a);
        assert(kept_lines(a, p) + kept_lines(b, p) =~= kept_lines(a, p));
    } else {
        lemma_kept_concat(a, b.drop_last(), p);
        assert((a + b).drop_last() =~= a + b.drop_last());
        assert((a + b).last() == b.last());
        if has_any_prefix(b.last(), p) {
        } else {
            assert(kept_lines(a, p) + kept_lines(b.drop_last(), p).push(b.last()) =~= (kept_lines(
                a,
                p,
            ) + kept_lines(b.drop_last(), p)).push(b.last()));
        }
    }
}

proof fn lemma_nonempty_concat(a: Seq<Seq<char>>, b: Seq<Seq<char>>)
    ensures
        nonempty_lines(a + b) == nonempty_lines(a) + nonempty_lines(b),
    decreases b.len(),
{
    if b.len() == 0 {
        assert(a + b =~= a);
        assert(nonempty_lines(a) + nonempty_lines(b) =~= nonempty_lines(a));
    } else {
        lemma_nonempty_concat(a, b.drop_last());
        assert((a + b).drop_last() =~= a + b.drop_last());
        assert((a + b).last() == b.last());
        if b.last().len() > 0 {
            assert(nonempty_lines(a) + nonempty_lines(b.drop_last()).push(b.last()) =~= (
            nonempty_lines(a) + nonempty_lines(b.drop_last())).push(b.last()));
        }
    }
}

proof fn lemma_kept_elements(ls: Seq<Seq<char>>, p: Seq<Seq<char>>)
    ensures
        forall|i: int| 0 <= i < kept_lines(ls, p).len() ==> ls.contains(#[trigger] kept_lines(ls, p)[i])
            && !has_any_prefix(kept_lines(ls, p)[i], p),
    decreases ls.len(),
{
    if ls.len() > 0 {
        let init = ls.drop_last();
        lemma_kept_elements(init, p);
        let r = kept_lines(init, p);
        assert forall|i: int| 0 <= i < kept_lines(ls, p).len() implies ls.contains(
            #[trigger] kept_lines(ls, p)[i],
        ) && !has_any_prefix(kept_lines(ls, p)[i], p) by {
            if i < r.len() {
                assert(kept_lines(ls, p)[i] == r[i]);
                assert(init.contains(r[i]));
                let j = choose|j: int| 0 <= j < init.len() && init[j] == r[i];
                assert(ls[j] == r[i]);
            } else {
                assert(kept_lines(ls, p)[i] == ls.last());
                assert(ls[ls.len() - 1] == ls.last());
            }
        }
    }
}

proof fn lemma_nonempty_elements(ls: Seq<Seq<char>>)
    ensures
        forall|i: int| 0 <= i < nonempty_lines(ls).len() ==> ls.contains(#[trigger] nonempty_lines(ls)[i])
            && nonempty_lines(ls)[i].len() > 0,
    decreases ls.len(),
{
    if ls.len() > 0 {
        let init = ls.drop_last();
        lemma_nonempty_elements(init);
        let r = nonempty_lines(init);
        assert forall|i: int| 0 <= i < nonempty_lines(ls).len() implies ls.contains(
            #[trigger] nonempty_lines(ls)[i],
        ) && nonempty_lines(ls)[i].len() > 0 by {
            if i < r.len() {
                assert(nonempty_lines(ls)[i] == r[i]);
                assert(init.contains(r[i]));
                let j = choose|j: int| 0 <= j < init.len() && init[j] == r[i];
                assert(ls[j] == r[i]);
            } else {
                assert(nonempty_lines(ls)[i] == ls.last());
                assert(ls[ls.len() - 1] == ls.last());
            }
        }
    }
}

proof fn lemma_kept_none_removed(ls: Seq<Seq<char>>, p: Seq<Seq<char>>)
    requires
        forall|i: int| 0 <= i < ls.len() ==> !has_any_prefix(#[trigger] ls[i], p),
    ensures
        kept_lines(ls, p) == ls,
    decreases ls.len(),
{
    if ls.len() > 0 {
        let init = ls.drop_last();
        assert forall|i: int| 0 <= i < init.len() implies !has_any_prefix(#[trigger] init[i], p) by {
            assert(init[i] == ls[i]);
        }
        lemma_kept_none_removed(init, p);
        assert(!has_any_prefix(ls[ls.len() - 1], p));
        assert(init.push(ls.last()) =~= ls);
    }
}

proof fn lemma_kept_all_removed(ls: Seq<Seq<char>>, p: Seq<Seq<char>>)
    requires
        forall|i: int| 0 <= i < ls.len() ==> has_any_prefix(#[trigger] ls[i], p),
    ensures
        kept_lines(ls, p) == Seq::<Seq<char>>::empty(),
    decreases ls.len(),
{
    if ls.len() > 0 {
        let init = ls.drop_last();
        assert forall|i: int| 0 <= i < init.len() implies has_any_prefix(#[trigger] init[i], p) by {
            assert(init[i] == ls[i]);
        }
        lemma_kept_all_removed(init, p);
        assert(has_any_prefix(ls[ls.len() - 1], p));
    }
}

proof fn lemma_nonempty_of_nonempty(ls: Seq<Seq<char>>)
    requires
        forall|i: int| 0 <= i < ls.len() ==> (#[trigger] ls[i]).len() > 0,
    ensures
        nonempty_lines(ls) == ls,
    decreases ls.len(),
{
    if ls.len() > 0 {
        let init = ls.drop_last();
        assert forall|i: int| 0 <= i < init.len() implies (#[trigger] init[i]).len() > 0 by {
            assert(init[i] == ls[i]);
        }
        lemma_nonempty_of_nonempty(init);
        assert(ls[ls.len() - 1].len() > 0);
        assert(init.push(ls.last()) =~= ls);
    }
}

/// Replacing lines is idempotent: doing it again on its own result, with the
/// same prefixes and new lines, gives the same text. This is why applying
/// the same cursor twice reports the second time that nothing changed. It
/// holds where each new line holds no newline and, without a carriage return
/// that ends it, still begins with one of the prefixes, and no kept line ends
/// with a carriage return. (Written out, every line is followed by a newline,
/// so a carriage return that ends it is dropped when the text is read again:
/// a kept line would change, and a new line might no longer be replaced.)
pub proof fn lemma_update_lines_idempotent(
    existing: Seq<char>,
    prefixes: Seq<Seq<char>>,
    appended: Seq<Seq<char>>,
)
    requires
        forall|i: int| 0 <= i < appended.len() ==> has_any_prefix(strip_cr(#[trigger] appended[i]), prefixes)
            && no_newline(appended[i]),
        forall|i: int| 0 <= i < kept_lines(lines(existing), prefixes).len()
            ==> !ends_with_cr(#[trigger] kept_lines(lines(existing), prefixes)[i]),
    ensures
        updated_content(updated_content(existing, prefixes, appended), prefixes, appended)
            == updated_content(existing, prefixes, appended),
{
    let src = lines(existing);
    let k = kept_lines(src, prefixes);
    let n = nonempty_lines(k + appended);
    let c = updated_content(existing, prefixes, appended);
    lemma_nonempty_concat(k, appended);
    lemma_kept_elements(src, prefixes);
    lemma_lines_no_newline(existing);
    lemma_nonempty_elements(k);
    lemma_nonempty_elements(appended);
    let nk = nonempty_lines(k);
    let na = nonempty_lines(appended);
    assert(n == nk + na);
    assert forall|i: int| 0 <= i < nk.len() implies !has_any_prefix(#[trigger] nk[i], prefixes)
        && !ends_with_cr(nk[i]) && no_newline(nk[i]) by {
        assert(k.contains(nk[i]));
        let j = choose|j: int| 0 <= j < k.len() && k[j] == nk[i];
        assert(!has_any_prefix(k[j], prefixes));
        assert(src.contains(k[j]));
        let m = choose|m: int| 0 <= m < src.len() && src[m] == k[j];
        assert(no_newline(src[m]));
    }
    assert forall|i: int| 0 <= i < na.len() implies has_any_prefix(strip_cr(#[trigger] na[i]), prefixes)
        && no_newline(na[i]) by {
        assert(appended.contains(na[i]));
        let j = choose|j: int| 0 <= j < appended.len() && appended[j] == na[i];
        assert(has_any_prefix(strip_cr(appended[j]), prefixes));
    }
    lemma_nonempty_of_nonempty(nk);
    lemma_nonempty_concat(nk, appended);
    if n.len() >= 1 {
        let snk = nk.map_values(|l: Seq<char>| strip_cr(l));
        let sna = na.map_values(|l: Seq<char>| strip_cr(l));
        assert(snk =~= nk);
        assert forall|i: int| 0 <= i < n.len() implies no_newline(#[trigger] n[i]) by {
            if i < nk.len() {
                assert(n[i] == nk[i]);
            } else {
                assert(n[i] == na[i - nk.len()]);
            }
        }
        lemma_lines_of_joined(n);
        assert(n.map_values(|l: Seq<char>| strip_cr(l)) =~= snk + sna);
        assert(lines(c) == nk + sna);
        assert forall|i: int| 0 <= i < sna.len() implies has_any_prefix(#[trigger] sna[i], prefixes) by {
            assert(sna[i] == strip_cr(na[i]));
        }
        lemma_kept_none_removed(nk, prefixes);
        lemma_kept_all_removed(sna, prefixes);
        lemma_kept_concat(nk, sna, prefixes);
        assert(kept_lines(lines(c), prefixes) =~= nk);
    } else {
        assert(n =~= Seq::<Seq<char>>::empty());
        reveal_strlit("\n");
        assert(join_with(n, "\n"@) + seq!['\n'] =~= seq!['\n']);
        lemma_lines_of_newline();
        assert(nk.len() == 0 && na.len() == 0);
        let one = seq![Seq::<char>::empty()];
        assert(nonempty_lines(one) =~= Seq::<Seq<char>>::empty()) by {
            assert(one.drop_last() =~= Seq::<Seq<char>>::empty());
        }
        assert(nonempty_lines(kept_lines(one, prefixes)) =~= Seq::<Seq<char>>::empty()) by {
            assert(one.drop_last() =~= Seq::<Seq<char>>::empty());
            assert(kept_lines(Seq::<Seq<char>>::empty(), prefixes) == Seq::<Seq<char>>::empty());
            assert(one.last() == Seq::<char>::empty());
            let ko = kept_lines(one, prefixes);
            if has_any_prefix(one.last(), prefixes) {
                assert(ko =~= Seq::<Seq<char>>::empty());
            } else {
                assert(ko =~= one);
            }
        }
        lemma_nonempty_concat(kept_lines(one, prefixes), appended);
    }
}

} // verus!
