//! Character-level text operations on `String` and `&str`, each stated over
//! the string's view as a sequence of characters.

use vstd::prelude::*;

verus! {

/// `p` is a prefix of `s`.
pub open spec fn is_prefix(p: Seq<char>, s: Seq<char>) -> bool {
    p.len() <= s.len() && s.subrange(0, p.len() as int) == p
}

/// `n` occurs in `h` starting at position `i`.
pub open spec fn occurs_at(h: Seq<char>, n: Seq<char>, i: int) -> bool {
    0 <= i && i + n.len() <= h.len() && h.subrange(i, i + n.len()) == n
}

/// `n` occurs somewhere in `h` (the empty sequence occurs in every sequence).
pub open spec fn has_substring(h: Seq<char>, n: Seq<char>) -> bool {
    exists|i: int| occurs_at(h, n, i)
}

/// The Unicode lower-case mapping of a string, as `str::to_lowercase` computes it.
pub uninterp spec fn lowercase(s: Seq<char>) -> Seq<char>;

/// Calls `str::to_lowercase`; its result is named `lowercase` of the
/// input, and it is empty exactly where the input is (every character has
/// a lower-case mapping of at least one character).
#[verifier::external_body]
pub(crate) fn to_lowercase(s: &str) -> (res: String)
    ensures
        res@ == lowercase(s@),
        res@.len() == 0 <==> s@.len() == 0,
{
    s.to_lowercase()
}

/// Appends one character with `String::push`.
#[verifier::external_body]
pub(crate) fn push_char(s: &mut String, c: char)
    ensures
        final(s)@ == old(s)@.push(c),
{
    s.push(c)
}

/// Removes the last character, if any, with `String::pop`.
#[verifier::external_body]
pub(crate) fn pop_char(s: &mut String)
    ensures
        final(s)@ == (if old(s)@.len() > 0 {
            old(s)@.drop_last()
        } else {
            old(s)@
        }),
{
    s.pop();
}

/// The characters of a string, in order.
pub fn chars_of(s: &str) -> (v: Vec<char>)
    ensures
        v@ == s@,
{
    let n = s.unicode_len();
    let mut v: Vec<char> = Vec::new();
    let mut i: usize = 0;
    while i < n
        invariant
            n == s@.len(),
            i <= n,
            v@ == s@.subrange(0, i as int),
        decreases n - i,
    {
        v.push(s.get_char(i));
        i = i + 1;
    }
    assert(s@.subrange(0, n as int) =~= s@);
    v
}

/// The string made of the given characters, in order.
pub fn string_of(v: &Vec<char>) -> (s: String)
    ensures
        s@ == v@,
{
    let mut s = String::new();
    let mut i: usize = 0;
    while i < v.len()
        invariant
            i <= v.len(),
            s@ == v@.subrange(0, i as int),
        decreases v.len() - i,
    {
        push_char(&mut s, v[i]);
        assert(v@.subrange(0, i + 1) =~= v@.subrange(0, i as int).push(v@[i as int]));
        i = i + 1;
    }
    assert(v@.subrange(0, v.len() as int) =~= v@);
    s
}

/// Whether `needle` occurs at position `i` of `hay`.
fn occurs_at_exec(hay: &Vec<char>, needle: &Vec<char>, i: usize) -> (res: bool)
    requires
        i + needle.len() <= hay.len(),
    ensures
        res == occurs_at(hay@, needle@, i as int),
{
    let mut j: usize = 0;
    while j < needle.len()
        invariant
            i + needle.len() <= hay.len(),
            j <= needle.len(),
            forall|k: int| 0 <= k < j ==> hay@[i + k] == needle@[k],
        decreases needle.len() - j,
    {
        if hay[i + j] != needle[j] {
            assert(hay@.subrange(i as int, i + needle.len())[j as int] != needle@[j as int]);
            return false;
        }
        j = j + 1;
    }
    assert(hay@.subrange(i as int, i + needle.len()) =~= needle@);
    true
}

/// Whether `needle` occurs as a contiguous run of characters in `haystack`.
pub fn contains(haystack: &str, needle: &str) -> (res: bool)
    ensures
        res == has_substring(haystack@, needle@),
{
    let hay = chars_of(haystack);
    let nd = chars_of(needle);
    if nd.len() > hay.len() {
        return false;
    }
    let last = hay.len() - nd.len();
    let mut i: usize = 0;
    while i <= last
        invariant
            last == hay.len() - nd.len(),
            nd.len() <= hay.len(),
            i <= last + 1,
            hay@ == haystack@,
            nd@ == needle@,
            forall|k: int| 0 <= k < i ==> !occurs_at(hay@, nd@, k),
        decreases last + 1 - i,
    {
        if occurs_at_exec(&hay, &nd, i) {
            return true;
        }
        if i == last {
            return false;
        }
        i = i + 1;
    }
    false
}

/// Whether `s` begins with `prefix`.
pub fn starts_with(s: &str, prefix: &str) -> (res: bool)
    ensures
        res == is_prefix(prefix@, s@),
{
    let sv = chars_of(s);
    let pv = chars_of(prefix);
    if pv.len() > sv.len() {
        return false;
    }
    occurs_at_exec(&sv, &pv, 0)
}


/// The decimal digit character for `d < 10`.
pub open spec fn digit_char(d: nat) -> char {
    (d + 48) as char
}

/// The decimal representation of `n`, without sign or leading zeros.
pub open spec fn decimal(n: nat) -> Seq<char>
    decreases n,
{
    if n < 10 {
        seq![digit_char(n)]
    } else {
        decimal(n / 10).push(digit_char(n % 10))
    }
}

fn decimal_chars(n: u128) -> (v: Vec<char>)
    ensures
        v@ == decimal(n as nat),
    decreases n,
{
    if n < 10 {
        let mut v: Vec<char> = Vec::new();
        let d: u8 = n as u8;
        v.push((48u8 + d) as char);
        v
    } else {
        let mut v = decimal_chars(n / 10);
        let d: u8 = (n % 10) as u8;
        v.push((48u8 + d) as char);
        v
    }
}

/// The decimal text of an unsigned number, as `to_string` writes it.
pub fn u128_to_string(n: u128) -> (s: String)
    ensures
        s@ == decimal(n as nat),
{
    let v = decimal_chars(n);
    string_of(&v)
}

/// The decimal text of a `u32`, as `to_string` writes it.
pub fn u32_to_string(n: u32) -> (s: String)
    ensures
        s@ == decimal(n as nat),
{
    u128_to_string(n as u128)
}

/// An ASCII decimal digit.
pub open spec fn is_digit(c: char) -> bool {
    '0' <= c && c <= '9'
}

/// The value of a decimal digit character.
pub open spec fn digit_value(c: char) -> nat {
    (c as int - 48) as nat
}

/// The value of a run of decimal digits, most significant first.
pub open spec fn digits_value(s: Seq<char>) -> nat
    decreases s.len(),
{
    if s.len() == 0 {
        0
    } else {
        digits_value(s.drop_last()) * 10 + digit_value(s.last())
    }
}

/// Every character is a decimal digit.
pub open spec fn all_digits(s: Seq<char>) -> bool {
    forall|i: int| 0 <= i < s.len() ==> is_digit(#[trigger] s[i])
}

/// The digits of an unsigned number's text: one leading `+` is allowed.
pub open spec fn unsigned_digits(s: Seq<char>) -> Seq<char> {
    if s.len() > 0 && s[0] == '+' {
        s.drop_first()
    } else {
        s
    }
}

/// The number that `str::parse` reads from `s` for an unsigned type whose
/// largest value is `max`: `None` where the text is empty, holds a character
/// other than a digit (after one optional `+`), or names a value above `max`.
pub open spec fn parse_unsigned(s: Seq<char>, max: nat) -> Option<nat> {
    let d = unsigned_digits(s);
    if d.len() > 0 && all_digits(d) && digits_value(d) <= max {
        Some(digits_value(d))
    } else {
        None
    }
}

proof fn lemma_digits_value_prefix_monotone(d: Seq<char>, i: int)
    requires
        0 <= i <= d.len(),
    ensures
        digits_value(d.subrange(0, i)) <= digits_value(d),
    decreases d.len() - i,
{
    if i < d.len() {
        lemma_digits_value_prefix_monotone(d, i + 1);
        assert(d.subrange(0, i + 1).drop_last() =~= d.subrange(0, i));
    } else {
        assert(d.subrange(0, i) =~= d);
    }
}

/// Reads an unsigned decimal number no larger than `max`, as `str::parse`
/// does for an unsigned integer type whose largest value is `max`.
pub fn parse_decimal(s: &str, max: u128) -> (res: Option<u128>)
    ensures
        res matches Some(v) ==> parse_unsigned(s@, max as nat) == Some(v as nat),
        res is None ==> parse_unsigned(s@, max as nat) is None,
{
    let all = chars_of(s);
    let mut start: usize = 0;
    if all.len() > 0 && all[0] == '+' {
        start = 1;
    }
    let ghost d = unsigned_digits(s@);
    assert(d =~= all@.subrange(start as int, all@.len() as int));
    if start >= all.len() {
        return None;
    }
    let mut value: u128 = 0;
    let mut i: usize = start;
    while i < all.len()
        invariant
            start <= i <= all.len(),
            start < all.len(),
            all@ == s@,
            d == all@.subrange(start as int, all@.len() as int),
            d == unsigned_digits(s@),
            forall|k: int| 0 <= k < i - start ==> is_digit(#[trigger] d[k]),
            value as nat == digits_value(d.subrange(0, i - start)),
            value <= max,
        decreases all.len() - i,
    {
        let c = all[i];
        if !('0' <= c && c <= '9') {
            assert(d[i - start] == c);
            assert(!is_digit(d[i - start]));
            return None;
        }
        let dv: u128 = (c as u32 - 48) as u128;
        assert(d.subrange(0, i + 1 - start).drop_last() =~= d.subrange(0, i - start));
        assert(d.subrange(0, i + 1 - start).last() == c);
        assert(digit_value(c) == dv);
        assert(digits_value(d.subrange(0, i + 1 - start)) == value * 10 + dv);
        let next = match value.checked_mul(10) {
            Some(m) => m.checked_add(dv),
            None => None,
        };
        match next {
            Some(nv) => {
                if nv > max {
                    proof {
                        lemma_digits_value_prefix_monotone(d, i + 1 - start);
                    }
                    return None;
                }
                value = nv;
            }
            None => {
                proof {
                    lemma_digits_value_prefix_monotone(d, i + 1 - start);
                }
                return None;
            }
        }
        i = i + 1;
    }
    assert(d.subrange(0, all.len() - start) =~= d);
    Some(value)
}

/// Reads a `u32` as `str::parse::<u32>` does.
pub fn parse_u32(s: &str) -> (res: Option<u32>)
    ensures
        res matches Some(v) ==> parse_unsigned(s@, u32::MAX as nat) == Some(v as nat),
        res is None ==> parse_unsigned(s@, u32::MAX as nat) is None,
{
    match parse_decimal(s, 0xffff_ffffu128) {
        Some(v) => Some(v as u32),
        None => None,
    }
}

/// Reads a `u128` as `str::parse::<u128>` does.
pub fn parse_u128(s: &str) -> (res: Option<u128>)
    ensures
        res matches Some(v) ==> parse_unsigned(s@, u128::MAX as nat) == Some(v as nat),
        res is None ==> parse_unsigned(s@, u128::MAX as nat) is None,
{
    parse_decimal(s, u128::MAX)
}


/// A character with the Unicode `White_Space` property, which is what
/// `char::is_whitespace` tests.
pub open spec fn is_whitespace(c: char) -> bool {
    ||| '\u{9}' <= c && c <= '\u{d}'
    ||| c == ' '
    ||| c == '\u{85}'
    ||| c == '\u{a0}'
    ||| c == '\u{1680}'
    ||| '\u{2000}' <= c && c <= '\u{200a}'
    ||| c == '\u{2028}'
    ||| c == '\u{2029}'
    ||| c == '\u{202f}'
    ||| c == '\u{205f}'
    ||| c == '\u{3000}'
}

/// Whether trimming removes `c`: white space when `target` is `None`,
/// else exactly the character `target`.
pub open spec fn trimmed_by(c: char, target: Option<char>) -> bool {
    match target {
        None => is_whitespace(c),
        Some(t) => c == t,
    }
}

/// `s` without its leading characters that trimming removes.
pub open spec fn trim_start_seq(s: Seq<char>, target: Option<char>) -> Seq<char>
    decreases s.len(),
{
    if s.len() > 0 && trimmed_by(s[0], target) {
        trim_start_seq(s.drop_first(), target)
    } else {
        s
    }
}

/// `s` without its trailing characters that trimming removes.
pub open spec fn trim_end_seq(s: Seq<char>, target: Option<char>) -> Seq<char>
    decreases s.len(),
{
    if s.len() > 0 && trimmed_by(s.last(), target) {
        trim_end_seq(s.drop_last(), target)
    } else {
        s
    }
}

/// `s` without leading and trailing characters that trimming removes.
pub open spec fn trim_seq(s: Seq<char>, target: Option<char>) -> Seq<char> {
    trim_end_seq(trim_start_seq(s, target), target)
}

fn trimmed_by_exec(c: char, target: Option<char>) -> (b: bool)
    ensures
        b == trimmed_by(c, target),
{
    match target {
        None => {
            ('\u{9}' <= c && c <= '\u{d}') || c == ' ' || c == '\u{85}' || c == '\u{a0}'
                || c == '\u{1680}' || ('\u{2000}' <= c && c <= '\u{200a}') || c == '\u{2028}'
                || c == '\u{2029}' || c == '\u{202f}' || c == '\u{205f}' || c == '\u{3000}'
        },
        Some(t) => c == t,
    }
}

proof fn lemma_trim_start_at(s: Seq<char>, target: Option<char>, i: int)
    requires
        0 <= i <= s.len(),
        forall|k: int| 0 <= k < i ==> trimmed_by(#[trigger] s[k], target),
        i == s.len() || !trimmed_by(s[i], target),
    ensures
        trim_start_seq(s, target) == s.subrange(i, s.len() as int),
    decreases i,
{
    if i == 0 {
        assert(s.subrange(0, s.len() as int) =~= s);
    } else {
        let t = s.drop_first();
        assert(trimmed_by(s[0], target));
        assert forall|k: int| 0 <= k < i - 1 implies trimmed_by(#[trigger] t[k], target) by {
            assert(t[k] == s[k + 1]);
        }
        if i - 1 < t.len() {
            assert(t[i - 1] == s[i]);
        }
        lemma_trim_start_at(t, target, i - 1);
        assert(t.subrange(i - 1, t.len() as int) =~= s.subrange(i, s.len() as int));
    }
}

proof fn lemma_trim_end_at(s: Seq<char>, target: Option<char>, j: int)
    requires
        0 <= j <= s.len(),
        forall|k: int| j <= k < s.len() ==> trimmed_by(#[trigger] s[k], target),
        j == 0 || !trimmed_by(s[j - 1], target),
    ensures
        trim_end_seq(s, target) == s.subrange(0, j),
    decreases s.len() - j,
{
    if j == s.len() {
        assert(s.subrange(0, j) =~= s);
    } else {
        let t = s.drop_last();
        assert(trimmed_by(s[s.len() - 1], target));
        assert forall|k: int| j <= k < t.len() implies trimmed_by(#[trigger] t[k], target) by {
            assert(t[k] == s[k]);
        }
        if j > 0 {
            assert(t[j - 1] == s[j - 1]);
        }
        lemma_trim_end_at(t, target, j);
        assert(t.subrange(0, j) =~= s.subrange(0, j));
    }
}

/// The characters of `v` from `lo` to `hi`.
pub fn sub_chars(v: &Vec<char>, lo: usize, hi: usize) -> (r: Vec<char>)
    requires
        lo <= hi <= v.len(),
    ensures
        r@ == v@.subrange(lo as int, hi as int),
{
    let mut r: Vec<char> = Vec::new();
    let mut i: usize = lo;
    while i < hi
        invariant
            lo <= i <= hi <= v.len(),
            r@ == v@.subrange(lo as int, i as int),
        decreases hi - i,
    {
        r.push(v[i]);
        assert(v@.subrange(lo as int, i + 1) =~= v@.subrange(lo as int, i as int).push(v@[i as int]));
        i = i + 1;
    }
    r
}

/// Trims characters at the start (when `start`) and at the end (when `end`).
pub fn trim_chars(v: &Vec<char>, target: Option<char>, start: bool, end: bool) -> (r: Vec<char>)
    ensures
        r@ == (if start && end {
            trim_seq(v@, target)
        } else if start {
            trim_start_seq(v@, target)
        } else if end {
            trim_end_seq(v@, target)
        } else {
            v@
        }),
{
    let n = v.len();
    let mut i: usize = 0;
    if start {
        while i < n && trimmed_by_exec(v[i], target)
            invariant
                n == v.len(),
                i <= n,
                forall|k: int| 0 <= k < i ==> trimmed_by(#[trigger] v@[k], target),
            decreases n - i,
        {
            i = i + 1;
        }
        proof {
            lemma_trim_start_at(v@, target, i as int);
        }
    }
    let ghost front = v@.subrange(i as int, n as int);
    let mut j: usize = n;
    if end {
        while j > i && trimmed_by_exec(v[j - 1], target)
            invariant
                n == v.len(),
                i <= j <= n,
                forall|k: int| j <= k < n ==> trimmed_by(#[trigger] v@[k], target),
            decreases j,
        {
            j = j - 1;
        }
        proof {
            assert forall|k: int| j - i <= k < front.len() implies trimmed_by(
                #[trigger] front[k],
                target,
            ) by {
                assert(front[k] == v@[k + i]);
            }
            if j > i {
                assert(front[j - i - 1] == v@[j - 1]);
            }
            lemma_trim_end_at(front, target, j - i);
            assert(front.subrange(0, j - i) =~= v@.subrange(i as int, j as int));
        }
    }
    if !start {
        assert(v@.subrange(0, n as int) =~= v@);
    }
    sub_chars(v, i, j)
}

/// `str::trim`: without leading and trailing white space.
pub fn trim(s: &str) -> (r: String)
    ensures
        r@ == trim_seq(s@, None),
{
    string_of(&trim_chars(&chars_of(s), None, true, true))
}

/// `str::trim_start`: without leading white space.
pub fn trim_start(s: &str) -> (r: String)
    ensures
        r@ == trim_start_seq(s@, None),
{
    string_of(&trim_chars(&chars_of(s), None, true, false))
}

/// `str::trim_matches` with one character: without that character at either end.
pub fn trim_matches_char(s: &str, c: char) -> (r: String)
    ensures
        r@ == trim_seq(s@, Some(c)),
{
    string_of(&trim_chars(&chars_of(s), Some(c), true, true))
}

/// The pieces of `s` between newline characters, as `split('\n')` gives them:
/// one more piece than there are newlines.
pub open spec fn split_newlines(s: Seq<char>) -> Seq<Seq<char>>
    decreases s.len(),
{
    if s.len() == 0 {
        seq![Seq::<char>::empty()]
    } else {
        let rest = split_newlines(s.drop_last());
        if s.last() == '\n' {
            rest.push(Seq::<char>::empty())
        } else {
            rest.update(rest.len() - 1, rest.last().push(s.last()))
        }
    }
}

/// A line without the carriage return that ends it, if any.
pub open spec fn strip_cr(l: Seq<char>) -> Seq<char> {
    if l.len() > 0 && l.last() == '\r' {
        l.drop_last()
    } else {
        l
    }
}

/// The lines of `s` as `str::lines` yields them: every line ended by `\n`
/// loses a `\r` just before it, and a last line without `\n` appears only
/// where it is not empty.
pub open spec fn lines(s: Seq<char>) -> Seq<Seq<char>> {
    let p = split_newlines(s);
    let ended = p.drop_last().map_values(|l: Seq<char>| strip_cr(l));
    if p.last().len() == 0 {
        ended
    } else {
        ended.push(p.last())
    }
}

pub proof fn lemma_split_newlines_nonempty(s: Seq<char>)
    ensures
        split_newlines(s).len() >= 1,
    decreases s.len(),
{
    if s.len() > 0 {
        lemma_split_newlines_nonempty(s.drop_last());
    }
}

/// `s` holds no newline character.
pub open spec fn no_newline(s: Seq<char>) -> bool {
    forall|i: int| 0 <= i < s.len() ==> s[i] != '\n'
}

/// `s` ends with a carriage return.
pub open spec fn ends_with_cr(s: Seq<char>) -> bool {
    s.len() > 0 && s.last() == '\r'
}

proof fn lemma_split_append_plain(s: Seq<char>, t: Seq<char>)
    requires
        no_newline(t),
    ensures
        split_newlines(s + t) == split_newlines(s).update(
            split_newlines(s).len() - 1,
            split_newlines(s).last() + t,
        ),
    decreases t.len(),
{
    lemma_split_newlines_nonempty(s);
    let sp = split_newlines(s);
    if t.len() == 0 {
        assert(s + t =~= s);
        assert(sp.last() + t =~= sp.last());
        assert(sp.update(sp.len() - 1, sp.last() + t) =~= sp);
    } else {
        let t0 = t.drop_last();
        lemma_split_append_plain(s, t0);
        assert((s + t).drop_last() =~= s + t0);
        assert((s + t).last() == t.last());
        assert(t[t.len() - 1] != '\n');
        let p0 = split_newlines(s + t0);
        assert(p0.last() == sp.last() + t0);
        assert(p0.len() == sp.len());
        assert(split_newlines(s + t) == p0.update(p0.len() - 1, p0.last().push(t.last())));
        assert(p0.last().push(t.last()) =~= sp.last() + t);
        assert(split_newlines(s + t) =~= sp.update(sp.len() - 1, sp.last() + t));
    }
}

proof fn lemma_split_append_newline(s: Seq<char>)
    ensures
        split_newlines(s + seq!['\n']) == split_newlines(s).push(Seq::<char>::empty()),
{
    assert((s + seq!['\n']).drop_last() =~= s);
}

/// Splitting joined lines at newlines gives the lines back, when no line holds a newline.
pub proof fn lemma_split_join(ls: Seq<Seq<char>>)
    requires
        ls.len() >= 1,
        forall|i: int| 0 <= i < ls.len() ==> no_newline(#[trigger] ls[i]),
    ensures
        split_newlines(join_with(ls, "\n"@)) == ls,
    decreases ls.len(),
{
    reveal_strlit("\n");
    if ls.len() == 1 {
        lemma_split_append_plain(Seq::<char>::empty(), ls[0]);
        assert(Seq::<char>::empty() + ls[0] =~= ls[0]);
        assert(Seq::<char>::empty() + ls[0] =~= ls[0]);
        assert(split_newlines(ls[0]) =~= ls);
    } else {
        let init = ls.drop_last();
        assert forall|i: int| 0 <= i < init.len() implies no_newline(#[trigger] init[i]) by {
            assert(init[i] == ls[i]);
        }
        lemma_split_join(init);
        let j = join_with(init, "\n"@);
        assert("\n"@ =~= seq!['\n']);
        lemma_split_append_newline(j);
        assert(no_newline(ls[ls.len() - 1]));
        lemma_split_append_plain(j + seq!['\n'], ls.last());
        assert(Seq::<char>::empty() + ls.last() =~= ls.last());
        assert(join_with(ls, "\n"@) == j + seq!['\n'] + ls.last());
        assert(split_newlines(join_with(ls, "\n"@)) =~= ls);
    }
}

/// The lines of joined lines with a final newline are those lines, each
/// without a carriage return that ends it, when no line holds a newline.
pub proof fn lemma_lines_of_joined(ls: Seq<Seq<char>>)
    requires
        ls.len() >= 1,
        forall|i: int| 0 <= i < ls.len() ==> no_newline(#[trigger] ls[i]),
    ensures
        lines(join_with(ls, "\n"@) + seq!['\n']) == ls.map_values(|l: Seq<char>| strip_cr(l)),
{
    lemma_split_join(ls);
    lemma_split_append_newline(join_with(ls, "\n"@));
    let p = split_newlines(join_with(ls, "\n"@) + seq!['\n']);
    assert(p.drop_last() =~= ls);
}

/// The lines of a lone newline: one empty line.
pub proof fn lemma_lines_of_newline()
    ensures
        lines(seq!['\n']) == seq![Seq::<char>::empty()],
{
    assert(seq!['\n'].drop_last() =~= Seq::<char>::empty());
    assert(split_newlines(Seq::<char>::empty()) == seq![Seq::<char>::empty()]);
    lemma_split_append_newline(Seq::<char>::empty());
    assert(Seq::<char>::empty() + seq!['\n'] =~= seq!['\n']);
    let p = split_newlines(seq!['\n']);
    assert(p =~= seq![Seq::<char>::empty(), Seq::<char>::empty()]);
    assert(p.drop_last().map_values(|l: Seq<char>| strip_cr(l)) =~= seq![Seq::<char>::empty()]);
}

proof fn lemma_split_newlines_no_newline(s: Seq<char>)
    ensures
        forall|i: int| 0 <= i < split_newlines(s).len() ==> no_newline(#[trigger] split_newlines(s)[i]),
    decreases s.len(),
{
    lemma_split_newlines_nonempty(s);
    if s.len() > 0 {
        lemma_split_newlines_no_newline(s.drop_last());
        lemma_split_newlines_nonempty(s.drop_last());
        let r = split_newlines(s.drop_last());
        if s.last() != '\n' {
            assert(no_newline(r.last().push(s.last())));
        }
    }
}

/// No line holds a newline.
pub proof fn lemma_lines_no_newline(s: Seq<char>)
    ensures
        forall|i: int| 0 <= i < lines(s).len() ==> no_newline(#[trigger] lines(s)[i]),
{
    lemma_split_newlines_no_newline(s);
    lemma_split_newlines_nonempty(s);
    let p = split_newlines(s);
    assert forall|i: int| 0 <= i < lines(s).len() implies no_newline(#[trigger] lines(s)[i]) by {
        if i < p.len() - 1 {
            assert(lines(s)[i] == strip_cr(p[i]));
            assert(no_newline(p[i]));
        } else {
            assert(lines(s)[i] == p.last());
        }
    }
}

/// The character sequences held by a sequence of character vectors.
pub open spec fn views(v: Seq<Vec<char>>) -> Seq<Seq<char>> {
    v.map_values(|l: Vec<char>| l@)
}

/// The lines of a sequence of characters, as `str::lines` yields them.
pub fn lines_of(v: &Vec<char>) -> (r: Vec<Vec<char>>)
    ensures
        views(r@) == lines(v@),
{
    let mut done: Vec<Vec<char>> = Vec::new();
    let mut cur: Vec<char> = Vec::new();
    let mut i: usize = 0;
    assert(v@.subrange(0, 0) =~= Seq::<char>::empty());
    while i < v.len()
        invariant
            i <= v.len(),
            split_newlines(v@.subrange(0, i as int)).len() >= 1,
            views(done@) == split_newlines(v@.subrange(0, i as int)).drop_last().map_values(
                |l: Seq<char>| strip_cr(l),
            ),
            cur@ == split_newlines(v@.subrange(0, i as int)).last(),
        decreases v.len() - i,
    {
        let ghost pre = v@.subrange(0, i as int);
        let ghost next = v@.subrange(0, i + 1);
        let ghost p = split_newlines(pre);
        assert(next.drop_last() =~= pre);
        assert(next.last() == v@[i as int]);
        let c = v[i];
        if c == '\n' {
            let ghost old_done = views(done@);
            let mut line = cur;
            if line.len() > 0 && line[line.len() - 1] == '\r' {
                line.pop();
            }
            assert(line@ == strip_cr(p.last()));
            done.push(line);
            cur = Vec::new();
            assert(split_newlines(next) == p.push(Seq::<char>::empty()));
            assert(views(done@) =~= old_done.push(line@));
            assert(split_newlines(next).drop_last() =~= p);
            assert(p.map_values(|l: Seq<char>| strip_cr(l)) =~= p.drop_last().map_values(
                |l: Seq<char>| strip_cr(l),
            ).push(strip_cr(p.last())));
            assert(views(done@) =~= split_newlines(next).drop_last().map_values(
                |l: Seq<char>| strip_cr(l),
            ));
        } else {
            cur.push(c);
            assert(split_newlines(next) == p.update(p.len() - 1, p.last().push(c)));
            assert(split_newlines(next).drop_last() =~= p.drop_last());
        }
        i = i + 1;
    }
    assert(v@.subrange(0, v.len() as int) =~= v@);
    if cur.len() > 0 {
        let ghost old_done = views(done@);
        let ghost cv = cur@;
        done.push(cur);
        assert(views(done@) =~= old_done.push(cv));
        assert(views(done@) =~= lines(v@));
    }
    done
}


/// Appends the characters of `src` to `dst`.
pub fn append_chars(dst: &mut Vec<char>, src: &Vec<char>)
    ensures
        final(dst)@ == old(dst)@ + src@,
{
    let mut i: usize = 0;
    while i < src.len()
        invariant
            i <= src.len(),
            dst@ == old(dst)@ + src@.subrange(0, i as int),
        decreases src.len() - i,
    {
        dst.push(src[i]);
        assert(src@.subrange(0, i + 1) =~= src@.subrange(0, i as int).push(src@[i as int]));
        i = i + 1;
    }
    assert(src@.subrange(0, src.len() as int) =~= src@);
}

/// The parts, with `sep` between each two neighbours, as `join` writes them.
pub open spec fn join_with(parts: Seq<Seq<char>>, sep: Seq<char>) -> Seq<char>
    decreases parts.len(),
{
    if parts.len() == 0 {
        Seq::<char>::empty()
    } else if parts.len() == 1 {
        parts[0]
    } else {
        join_with(parts.drop_last(), sep) + sep + parts.last()
    }
}

/// Joins the parts with `sep` between each two neighbours.
pub fn join_chars(parts: &Vec<Vec<char>>, sep: &Vec<char>) -> (r: Vec<char>)
    ensures
        r@ == join_with(views(parts@), sep@),
{
    let mut r: Vec<char> = Vec::new();
    let mut i: usize = 0;
    while i < parts.len()
        invariant
            i <= parts.len(),
            r@ == join_with(views(parts@.subrange(0, i as int)), sep@),
        decreases parts.len() - i,
    {
        let ghost before = views(parts@.subrange(0, i as int));
        let ghost after = views(parts@.subrange(0, i + 1));
        assert(after.drop_last() =~= before);
        assert(after.last() == parts@[i as int]@);
        if i > 0 {
            append_chars(&mut r, sep);
        } else {
            assert(after.len() == 1);
        }
        append_chars(&mut r, &parts[i]);
        i = i + 1;
    }
    assert(parts@.subrange(0, parts.len() as int) =~= parts@);
    r
}

/// `base` joined with `rel` as `Path::join` does on Unix: an absolute `rel`
/// replaces `base`; otherwise a `/` goes between them unless `base` is empty
/// or already ends with one.
pub open spec fn joined_path(base: Seq<char>, rel: Seq<char>) -> Seq<char> {
    if rel.len() > 0 && rel[0] == '/' {
        rel
    } else if base.len() == 0 || base.last() == '/' {
        base + rel
    } else {
        base + seq!['/'] + rel
    }
}

/// Joins two paths as `Path::join` does on Unix.
pub fn join_path(base: &str, rel: &str) -> (r: String)
    ensures
        r@ == joined_path(base@, rel@),
{
    let b = chars_of(base);
    let rl = chars_of(rel);
    if rl.len() > 0 && rl[0] == '/' {
        return string_of(&rl);
    }
    let mut out = b;
    if out.len() > 0 && out[out.len() - 1] != '/' {
        out.push('/');
    }
    append_chars(&mut out, &rl);
    string_of(&out)
}

/// Concatenation of two strings.
pub fn concat(a: &str, b: &str) -> (r: String)
    ensures
        r@ == a@ + b@,
{
    let mut s = String::from_str(a);
    s.append(b);
    s
}


/// Whether two strings hold the same characters.
pub fn str_eq(a: &str, b: &str) -> (r: bool)
    ensures
        r == (a@ == b@),
{
    let x = chars_of(a);
    let y = chars_of(b);
    if x.len() != y.len() {
        assert(x@.len() != y@.len());
        return false;
    }
    let mut i: usize = 0;
    while i < x.len()
        invariant
            i <= x.len() == y.len(),
            x@ == a@,
            y@ == b@,
            forall|k: int| 0 <= k < i ==> x@[k] == y@[k],
        decreases x.len() - i,
    {
        if x[i] != y[i] {
            assert(x@[i as int] != y@[i as int]);
            return false;
        }
        i = i + 1;
    }
    assert(x@ =~= y@);
    true
}

/// `a` comes before `b` in the order of `str`: character by character, and
/// a proper prefix before the longer string.
pub open spec fn lex_lt(a: Seq<char>, b: Seq<char>) -> bool
    decreases a.len(),
{
    if a.len() == 0 {
        b.len() > 0
    } else if b.len() == 0 {
        false
    } else if a[0] != b[0] {
        a[0] < b[0]
    } else {
        lex_lt(a.drop_first(), b.drop_first())
    }
}

/// No string comes before itself, and of two different strings one comes first.
pub proof fn lemma_lex_lt_total(a: Seq<char>, b: Seq<char>)
    ensures
        !lex_lt(a, a),
        !(lex_lt(a, b) && lex_lt(b, a)),
        a != b ==> lex_lt(a, b) || lex_lt(b, a),
    decreases a.len(),
{
    if a.len() > 0 {
        lemma_lex_lt_total(a.drop_first(), a.drop_first());
    }
    if a.len() > 0 && b.len() > 0 && a[0] == b[0] {
        lemma_lex_lt_total(a.drop_first(), b.drop_first());
        if a != b {
            assert(a.drop_first() != b.drop_first()) by {
                if a.drop_first() == b.drop_first() {
                    assert(a.len() == b.len());
                    assert forall|i: int| 0 <= i < a.len() implies a[i] == b[i] by {
                        if i > 0 {
                            assert(a[i] == a.drop_first()[i - 1]);
                            assert(b[i] == b.drop_first()[i - 1]);
                        }
                    }
                    assert(a =~= b);
                }
            }
        }
    }
    if a.len() == 0 && b.len() == 0 {
        assert(a =~= b);
    }
}

/// The order of strings is transitive.
pub proof fn lemma_lex_lt_transitive(a: Seq<char>, b: Seq<char>, c: Seq<char>)
    requires
        lex_lt(a, b),
        lex_lt(b, c),
    ensures
        lex_lt(a, c),
    decreases a.len(),
{
    if a.len() > 0 && b.len() > 0 && c.len() > 0 && a[0] == b[0] && b[0] == c[0] {
        lemma_lex_lt_transitive(a.drop_first(), b.drop_first(), c.drop_first());
    }
}

/// Whether `a` comes before `b` in the order of `str`.
pub fn lex_less(a: &str, b: &str) -> (r: bool)
    ensures
        r == lex_lt(a@, b@),
{
    let x = chars_of(a);
    let y = chars_of(b);
    let mut i: usize = 0;
    assert(x@.subrange(0, x@.len() as int) =~= x@);
    assert(y@.subrange(0, y@.len() as int) =~= y@);
    while i < x.len() && i < y.len() && x[i] == y[i]
        invariant
            i <= x.len(),
            i <= y.len(),
            x@ == a@,
            y@ == b@,
            lex_lt(x@, y@) == lex_lt(x@.subrange(i as int, x@.len() as int), y@.subrange(
                i as int,
                y@.len() as int,
            )),
        decreases x.len() - i,
    {
        let ghost xs = x@.subrange(i as int, x@.len() as int);
        let ghost ys = y@.subrange(i as int, y@.len() as int);
        assert(xs.drop_first() =~= x@.subrange(i + 1, x@.len() as int));
        assert(ys.drop_first() =~= y@.subrange(i + 1, y@.len() as int));
        i = i + 1;
    }
    let ghost xs = x@.subrange(i as int, x@.len() as int);
    let ghost ys = y@.subrange(i as int, y@.len() as int);
    if i == x.len() {
        i < y.len()
    } else if i == y.len() {
        false
    } else {
        assert(xs[0] == x@[i as int] && ys[0] == y@[i as int]);
        x[i] < y[i]
    }
}


/// The decimal text of a number is a non-empty run of digits whose value is that number.
pub proof fn lemma_decimal_digits(n: nat)
    ensures
        decimal(n).len() >= 1,
        all_digits(decimal(n)),
        digits_value(decimal(n)) == n,
    decreases n,
{
    if n < 10 {
        assert(digit_value(digit_char(n)) == n);
        assert(decimal(n) == seq![digit_char(n)]);
        assert(decimal(n).drop_last() =~= Seq::<char>::empty());
        assert(digits_value(Seq::<char>::empty()) == 0);
        assert(decimal(n).last() == digit_char(n));
        assert(digits_value(decimal(n)) == digits_value(decimal(n).drop_last()) * 10 + digit_value(
            decimal(n).last(),
        ));
    } else {
        lemma_decimal_digits(n / 10);
        let d = decimal(n);
        assert(d.drop_last() =~= decimal(n / 10));
        assert(digit_value(digit_char(n % 10)) == n % 10);
        assert(d.last() == digit_char(n % 10));
        assert((n / 10) * 10 + n % 10 == n) by (nonlinear_arith);
        assert(digits_value(d) == digits_value(decimal(n / 10)) * 10 + digit_value(d.last()));
        assert forall|i: int| 0 <= i < d.len() implies is_digit(#[trigger] d[i]) by {
            if i < d.len() - 1 {
                assert(d[i] == decimal(n / 10)[i]);
            }
        }
    }
}

/// Reading the decimal text of a number gives the number back.
pub proof fn lemma_parse_decimal_roundtrip(n: nat, max: nat)
    requires
        n <= max,
    ensures
        parse_unsigned(decimal(n), max) == Some(n),
{
    lemma_decimal_digits(n);
    assert(is_digit(decimal(n)[0]));
}

/// Trimming white space leaves a run of digits as it is.
pub proof fn lemma_trim_digits(s: Seq<char>)
    requires
        all_digits(s),
    ensures
        trim_seq(s, None) == s,
{
    if s.len() > 0 {
        assert(is_digit(s[0]));
        assert(is_digit(s[s.len() - 1]));
    }
    lemma_trim_start_at(s, None, 0);
    assert(s.subrange(0, s.len() as int) =~= s);
    lemma_trim_end_at(s, None, s.len() as int);
}

/// Trimming leaves a string that neither begins nor ends with white space as it is.
pub proof fn lemma_trim_unpadded(s: Seq<char>)
    requires
        s.len() > 0 ==> !is_whitespace(s[0]) && !is_whitespace(s.last()),
    ensures
        trim_seq(s, None) == s,
{
    lemma_trim_start_at(s, None, 0);
    assert(s.subrange(0, s.len() as int) =~= s);
    lemma_trim_end_at(s, None, s.len() as int);
}


/// Appending text never changes the pieces before the last one, and only
/// extends the last one.
pub proof fn lemma_split_append_extends(a: Seq<char>, b: Seq<char>)
    ensures
        split_newlines(a + b).len() >= split_newlines(a).len(),
        forall|i: int| 0 <= i < split_newlines(a).len() - 1 ==> split_newlines(a + b)[i] == #[trigger] split_newlines(a)[i],
        is_prefix(split_newlines(a).last(), split_newlines(a + b)[split_newlines(a).len() - 1]),
    decreases b.len(),
{
    lemma_split_newlines_nonempty(a);
    let sa = split_newlines(a);
    if b.len() == 0 {
        assert(a + b =~= a);
        assert(sa.last().subrange(0, sa.last().len() as int) =~= sa.last());
    } else {
        let b0 = b.drop_last();
        lemma_split_append_extends(a, b0);
        lemma_split_newlines_nonempty(a + b0);
        assert((a + b).drop_last() =~= a + b0);
        let p0 = split_newlines(a + b0);
        let k = sa.len() - 1;
        if b.last() == '\n' {
            assert(split_newlines(a + b) == p0.push(Seq::<char>::empty()));
        } else {
            assert(split_newlines(a + b) == p0.update(p0.len() - 1, p0.last().push(b.last())));
            if k == p0.len() - 1 {
                let old_piece = p0[k];
                let new_piece = old_piece.push(b.last());
                assert(new_piece.subrange(0, sa.last().len() as int) =~= old_piece.subrange(0, sa.last().len() as int));
            }
        }
    }
}

/// Trimming the start leaves a string that does not begin with white space as it is.
pub proof fn lemma_trim_start_unpadded(s: Seq<char>)
    requires
        s.len() > 0 ==> !is_whitespace(s[0]),
    ensures
        trim_start_seq(s, None) == s,
{
    lemma_trim_start_at(s, None, 0);
    assert(s.subrange(0, s.len() as int) =~= s);
}

/// The pieces of a text holding no newline: that text alone.
pub proof fn lemma_split_plain(s: Seq<char>)
    requires
        no_newline(s),
    ensures
        split_newlines(s) == seq![s],
{
    lemma_split_append_plain(Seq::<char>::empty(), s);
    assert(Seq::<char>::empty() + s =~= s);
    assert(split_newlines(Seq::<char>::empty()) == seq![Seq::<char>::empty()]);
    assert(Seq::<char>::empty() + s =~= s);
    assert(split_newlines(s) =~= seq![s]);
}

/// The pieces of `a`, a newline and `b`, where neither holds a newline.
pub proof fn lemma_split_two_lines(a: Seq<char>, b: Seq<char>)
    requires
        no_newline(a),
        no_newline(b),
    ensures
        split_newlines(a + seq!['\n'] + b) == seq![a, b],
{
    lemma_split_plain(a);
    lemma_split_append_newline(a);
    lemma_split_append_plain(a + seq!['\n'], b);
    assert(Seq::<char>::empty() + b =~= b);
    assert(split_newlines(a + seq!['\n'] + b) =~= seq![a, b]);
}

} // verus!
