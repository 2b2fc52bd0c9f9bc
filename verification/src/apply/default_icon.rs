//! The default icon theme file, which names the cursor theme to inherit.

use vstd::prelude::*;

use crate::apply::ApplyReport;
use crate::system::fs::WriteReport;
use crate::text::{
    is_prefix, lemma_split_append_extends, lemma_split_newlines_nonempty, lemma_split_two_lines,
    lemma_trim_start_unpadded, lines, no_newline, split_newlines, strip_cr, trim_start_seq,
};
use crate::theme::declares_inherits;

verus! {

/// The text of `~/.icons/default/index.theme` for a theme.
pub open spec fn spec_content(theme_name: Seq<char>) -> Seq<char> {
    "[Icon Theme]\nInherits="@ + theme_name + "\n"@
}

/// The text of `~/.icons/default/index.theme` that makes a theme the default.
pub fn content(theme_name: &str) -> (c: String)
    ensures
        c@ == spec_content(theme_name@),
{
    let mut c = String::from_str("[Icon Theme]\nInherits=");
    c.append(theme_name);
    c.append("\n");
    c
}

/// The report for writing the default icon theme file: what was written and
/// where its backup went, or that it was already current.
pub fn report(write: &WriteReport) -> (r: ApplyReport)
    ensures
        r.target@ == "default_icon"@,
        r.changed == write.changed,
        !r.skipped,
        write.changed ==> r.message@ == "wrote "@ + write.path@ + match write.backup {
            Some(b) => "; backup "@ + b.target@,
            None => Seq::<char>::empty(),
        },
        !write.changed ==> r.message@ == "already current"@,
{
    if write.changed {
        let mut m = String::from_str("wrote ");
        m.append(write.path.as_str());
        match &write.backup {
            Some(b) => {
                m.append("; backup ");
                m.append(b.target.as_str());
            },
            None => {
                assert(m@ + Seq::<char>::empty() =~= m@);
            },
        }
        ApplyReport::changed("default_icon", m)
    } else {
        ApplyReport::unchanged("default_icon", String::from_str("already current"))
    }
}


/// The default icon theme file the tool writes declares an inherited theme,
/// which is what the theme search looks for in a theme without a `cursors`
/// directory: the file is read back as naming a cursor theme.
pub proof fn lemma_default_icon_declares_inherits(theme_name: Seq<char>)
    ensures
        declares_inherits(spec_content(theme_name)),
{
    reveal_strlit("[Icon Theme]\nInherits=");
    reveal_strlit("\n");
    reveal_strlit("Inherits=");
    reveal_strlit("[Icon Theme]");
    let head = "[Icon Theme]"@;
    let key = "Inherits="@;
    assert("[Icon Theme]\nInherits="@ =~= head + seq!['\n'] + key);
    assert(no_newline(head));
    assert(no_newline(key));
    lemma_split_two_lines(head, key);
    let a = head + seq!['\n'] + key;
    let c = spec_content(theme_name);
    assert(c =~= a + (theme_name + seq!['\n']));
    lemma_split_append_extends(a, theme_name + seq!['\n']);
    lemma_split_append_extends(a, theme_name);
    let p = split_newlines(c);
    assert(c =~= (a + theme_name) + seq!['\n']);
    assert((a + theme_name + seq!['\n']).drop_last() =~= a + theme_name);
    lemma_split_newlines_nonempty(a + theme_name);
    assert(p == split_newlines(a + theme_name).push(Seq::<char>::empty()));
    assert(p.len() >= 3);
    let piece = p[1];
    assert(is_prefix(key, piece));
    let line = lines(c)[1];
    assert(line == strip_cr(piece));
    assert(is_prefix(key, line)) by {
        if piece.len() > 0 && piece.last() == '\r' {
            assert(piece.len() > key.len());
            assert(piece.drop_last().subrange(0, key.len() as int) =~= piece.subrange(0, key.len() as int));
        }
    }
    assert(key[0] == 'I');
    assert(line.subrange(0, key.len() as int)[0] == line[0]);
    assert(line[0] == 'I');
    lemma_trim_start_unpadded(line);
    assert(is_prefix("Inherits="@, trim_start_seq(lines(c)[1], None)));
}

} // verus!
