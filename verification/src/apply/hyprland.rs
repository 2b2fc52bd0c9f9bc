//! The Hyprland cursor configuration and the `hyprctl` call.

use vstd::prelude::*;

use crate::apply::ApplyReport;
use crate::text::{
    decimal, ends_with_cr, join_with, lemma_decimal_digits, lemma_lines_of_joined, lines, no_newline,
    strip_cr, u32_to_string,
};

verus! {

/// The text of `~/.config/hypr/cursor.conf` for a theme and size.
pub open spec fn spec_hyprland_content(theme: Seq<char>, size: u32) -> Seq<char> {
    "# Managed by cursors\nenv = XCURSOR_THEME,"@ + theme + "\nenv = XCURSOR_SIZE,"@ + decimal(
        size as nat,
    ) + "\nenv = HYPRCURSOR_SIZE,"@ + decimal(size as nat) + "\nexec-once = hyprctl setcursor "@
        + theme + " "@ + decimal(size as nat) + "\n"@
}

/// Read line by line, the Hyprland configuration names the theme and
/// carries the decimal text of the size being applied in both size
/// settings and in the `hyprctl` call, for every theme name without a line
/// break or a final carriage return and every size.
pub proof fn lemma_hyprland_content_lines(theme: Seq<char>, size: u32)
    requires
        no_newline(theme),
        !ends_with_cr(theme),
    ensures
        lines(spec_hyprland_content(theme, size)) == seq![
            "# Managed by cursors"@,
            "env = XCURSOR_THEME,"@ + theme,
            "env = XCURSOR_SIZE,"@ + decimal(size as nat),
            "env = HYPRCURSOR_SIZE,"@ + decimal(size as nat),
            "exec-once = hyprctl setcursor "@ + theme + " "@ + decimal(size as nat),
        ],
{
    let d = decimal(size as nat);
    lemma_decimal_digits(size as nat);
    reveal_strlit("# Managed by cursors\nenv = XCURSOR_THEME,");
    reveal_strlit("\nenv = XCURSOR_SIZE,");
    reveal_strlit("\nenv = HYPRCURSOR_SIZE,");
    reveal_strlit("\nexec-once = hyprctl setcursor ");
    reveal_strlit(" ");
    reveal_strlit("\n");
    reveal_strlit("# Managed by cursors");
    reveal_strlit("env = XCURSOR_THEME,");
    reveal_strlit("env = XCURSOR_SIZE,");
    reveal_strlit("env = HYPRCURSOR_SIZE,");
    reveal_strlit("exec-once = hyprctl setcursor ");
    let ls = seq![
        "# Managed by cursors"@,
        "env = XCURSOR_THEME,"@ + theme,
        "env = XCURSOR_SIZE,"@ + decimal(size as nat),
        "env = HYPRCURSOR_SIZE,"@ + decimal(size as nat),
        "exec-once = hyprctl setcursor "@ + theme + " "@ + decimal(size as nat),
    ];
    assert(d[d.len() - 1] != '\r' && d[d.len() - 1] != '\n');
    assert(no_newline(d)) by {
        assert forall|i: int| 0 <= i < d.len() implies d[i] != '\n' by {
            assert(crate::text::is_digit(d[i]));
        }
    }
    assert forall|i: int| 0 <= i < ls.len() implies no_newline(#[trigger] ls[i]) by {}
    assert forall|i: int| 0 <= i < ls.len() implies strip_cr(#[trigger] ls[i]) == ls[i] by {
        if i == 1 && theme.len() > 0 {
            assert(ls[i].last() == theme.last());
        }
        if i >= 2 {
            assert(ls[i].last() == d.last());
        }
    }
    reveal_with_fuel(join_with, 6);
    assert(spec_hyprland_content(theme, size) =~= join_with(ls, "\n"@) + seq!['\n']);
    lemma_lines_of_joined(ls);
    assert(ls.map_values(|l: Seq<char>| strip_cr(l)) =~= ls);
}

/// The Hyprland configuration that sets the cursor theme and size.
pub fn hyprland_content(theme: &str, size: u32) -> (c: String)
    ensures
        c@ == spec_hyprland_content(theme@, size),
        no_newline(theme@) && !ends_with_cr(theme@) ==> lines(c@) == seq![
            "# Managed by cursors"@,
            "env = XCURSOR_THEME,"@ + theme@,
            "env = XCURSOR_SIZE,"@ + decimal(size as nat),
            "env = HYPRCURSOR_SIZE,"@ + decimal(size as nat),
            "exec-once = hyprctl setcursor "@ + theme@ + " "@ + decimal(size as nat),
        ],
{
    proof {
        if no_newline(theme@) && !ends_with_cr(theme@) {
            lemma_hyprland_content_lines(theme@, size);
        }
    }
    let n = u32_to_string(size);
    let mut c = String::from_str("# Managed by cursors\nenv = XCURSOR_THEME,");
    c.append(theme);
    c.append("\nenv = XCURSOR_SIZE,");
    c.append(n.as_str());
    c.append("\nenv = HYPRCURSOR_SIZE,");
    c.append(n.as_str());
    c.append("\nexec-once = hyprctl setcursor ");
    c.append(theme);
    c.append(" ");
    c.append(n.as_str());
    c.append("\n");
    c
}

/// The arguments of `hyprctl` that set the cursor now.
pub fn setcursor_args(theme: &str, size: u32) -> (a: Vec<String>)
    ensures
        a@.len() == 3,
        a@[0]@ == "setcursor"@,
        a@[1]@ == theme@,
        a@[2]@ == decimal(size as nat),
{
    let mut a: Vec<String> = Vec::new();
    a.push(String::from_str("setcursor"));
    a.push(String::from_str(theme));
    a.push(u32_to_string(size));
    a
}

/// The report for writing the Hyprland configuration.
pub fn report(changed: bool) -> (r: ApplyReport)
    ensures
        r.target@ == "hyprland"@,
        r.changed == changed,
        !r.skipped,
        r.message@ == (if changed { "updated Hyprland cursor config"@ } else { "already current"@ }),
{
    if changed {
        ApplyReport::changed("hyprland", String::from_str("updated Hyprland cursor config"))
    } else {
        ApplyReport::unchanged("hyprland", String::from_str("already current"))
    }
}

/// The report for setting the cursor with `hyprctl` alone: skipped where
/// `hyprctl` is missing.
pub fn runtime_report(hyprctl_available: bool) -> (r: ApplyReport)
    ensures
        r.target@ == "hyprland"@,
        r.changed == hyprctl_available,
        r.skipped == !hyprctl_available,
        r.message@ == (if hyprctl_available {
            "applied Hyprland cursor"@
        } else {
            "hyprctl unavailable"@
        }),
{
    if hyprctl_available {
        ApplyReport::changed("hyprland", String::from_str("applied Hyprland cursor"))
    } else {
        ApplyReport::skipped("hyprland", String::from_str("hyprctl unavailable"))
    }
}

} // verus!
