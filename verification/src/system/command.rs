//! How commands are named to the shell when the tool looks for them.

use vstd::prelude::*;

use crate::text::{append_chars, chars_of, string_of};

verus! {

/// The runner of the system's commands; what it runs is outside this library.
#[derive(Debug, Clone, Copy)]
pub struct RealCommandRunner;

/// A character that a shell word may hold without quoting.
pub open spec fn is_plain_word_char(c: char) -> bool {
    ('a' <= c && c <= 'z') || ('A' <= c && c <= 'Z') || ('0' <= c && c <= '9') || c == '_' || c == '-'
        || c == '.'
}

/// The characters of `s` with each single quote written as `'"'"'`.
pub open spec fn quote_escaped(s: Seq<char>) -> Seq<char>
    decreases s.len(),
{
    if s.len() == 0 {
        Seq::<char>::empty()
    } else {
        quote_escaped(s.drop_last()) + (if s.last() == '\'' {
            "'\"'\"'"@
        } else {
            seq![s.last()]
        })
    }
}

/// A command name as a shell word: as it is where every character is an
/// ASCII letter, digit, `_`, `-` or `.`; otherwise in single quotes, with
/// each single quote inside written as `'"'"'`.
pub open spec fn spec_shell_escape(command: Seq<char>) -> Seq<char> {
    if forall|i: int| 0 <= i < command.len() ==> is_plain_word_char(#[trigger] command[i]) {
        command
    } else {
        seq!['\''] + quote_escaped(command) + seq!['\'']
    }
}

/// Writes a command name as one shell word.
pub fn shell_escape(command: &str) -> (r: String)
    ensures
        r@ == spec_shell_escape(command@),
{
    let v = chars_of(command);
    let mut plain = true;
    let mut i: usize = 0;
    while i < v.len()
        invariant
            i <= v.len(),
            v@ == command@,
            plain == forall|k: int| 0 <= k < i ==> is_plain_word_char(#[trigger] v@[k]),
        decreases v.len() - i,
    {
        let c = v[i];
        let ok = ('a' <= c && c <= 'z') || ('A' <= c && c <= 'Z') || ('0' <= c && c <= '9')
            || c == '_' || c == '-' || c == '.';
        if !ok {
            plain = false;
        }
        i = i + 1;
    }
    if plain {
        return string_of(&v);
    }
    let quote = chars_of("'\"'\"'");
    let mut out: Vec<char> = Vec::new();
    out.push('\'');
    let mut j: usize = 0;
    while j < v.len()
        invariant
            j <= v.len(),
            v@ == command@,
            quote@ == "'\"'\"'"@,
            out@ == seq!['\''] + quote_escaped(v@.subrange(0, j as int)),
        decreases v.len() - j,
    {
        assert(v@.subrange(0, j + 1).drop_last() =~= v@.subrange(0, j as int));
        if v[j] == '\'' {
            append_chars(&mut out, &quote);
        } else {
            out.push(v[j]);
        }
        assert(out@ =~= seq!['\''] + quote_escaped(v@.subrange(0, j + 1)));
        j = j + 1;
    }
    assert(v@.subrange(0, v.len() as int) =~= v@);
    out.push('\'');
    string_of(&out)
}

/// The shell script that succeeds exactly when `command` can be run.
pub fn probe_script(command: &str) -> (r: String)
    ensures
        r@ == "command -v "@ + spec_shell_escape(command@),
{
    let mut s = String::from_str("command -v ");
    s.append(shell_escape(command).as_str());
    s
}

} // verus!
