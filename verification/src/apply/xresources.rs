//! The cursor lines of `~/.Xresources` and the `xrdb` call.

use vstd::prelude::*;

use crate::apply::ApplyReport;
use crate::text::{decimal, u32_to_string};

verus! {

/// The prefixes of the lines the tool owns in `~/.Xresources`.
pub fn cursor_prefixes() -> (p: Vec<&'static str>)
    ensures
        p@.len() == 2,
        p@[0]@ == "Xcursor.theme:"@,
        p@[1]@ == "Xcursor.size:"@,
{
    let mut p: Vec<&'static str> = Vec::new();
    p.push("Xcursor.theme:");
    p.push("Xcursor.size:");
    p
}

/// The lines of `~/.Xresources` that set the cursor theme and size.
pub fn cursor_lines(theme: &str, size: u32) -> (l: Vec<String>)
    ensures
        l@.len() == 2,
        l@[0]@ == "Xcursor.theme: "@ + theme@,
        l@[1]@ == "Xcursor.size: "@ + decimal(size as nat),
{
    let mut first = String::from_str("Xcursor.theme: ");
    first.append(theme);
    let mut second = String::from_str("Xcursor.size: ");
    second.append(u32_to_string(size).as_str());
    let mut l: Vec<String> = Vec::new();
    l.push(first);
    l.push(second);
    l
}

/// The report for updating `~/.Xresources`.
pub fn report(changed: bool) -> (r: ApplyReport)
    ensures
        r.target@ == "xresources"@,
        r.changed == changed,
        !r.skipped,
        r.message@ == (if changed { "updated Xresources cursor values"@ } else { "already current"@ }),
{
    if changed {
        ApplyReport::changed("xresources", String::from_str("updated Xresources cursor values"))
    } else {
        ApplyReport::unchanged("xresources", String::from_str("already current"))
    }
}

/// The report for merging `~/.Xresources` alone: skipped where `xrdb` or the
/// file is missing.
pub fn runtime_report(xrdb_available: bool, file_exists: bool) -> (r: ApplyReport)
    ensures
        r.target@ == "xresources"@,
        r.changed == (xrdb_available && file_exists),
        r.skipped == !(xrdb_available && file_exists),
        r.message@ == (if !xrdb_available {
            "xrdb unavailable"@
        } else if !file_exists {
            "Xresources unavailable"@
        } else {
            "merged Xresources"@
        }),
{
    if !xrdb_available {
        ApplyReport::skipped("xresources", String::from_str("xrdb unavailable"))
    } else if !file_exists {
        ApplyReport::skipped("xresources", String::from_str("Xresources unavailable"))
    } else {
        ApplyReport::changed("xresources", String::from_str("merged Xresources"))
    }
}

} // verus!
