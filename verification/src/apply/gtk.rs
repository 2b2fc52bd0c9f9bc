//! The GNOME cursor settings, set with `gsettings`.

use vstd::prelude::*;

use crate::apply::ApplyReport;
use crate::text::{decimal, u32_to_string};

verus! {

/// The arguments of the two `gsettings` calls: one sets the theme, one the size.
pub fn settings_args(theme: &str, size: u32) -> (a: (Vec<String>, Vec<String>))
    ensures
        a.0@.len() == 4,
        a.0@[0]@ == "set"@,
        a.0@[1]@ == "org.gnome.desktop.interface"@,
        a.0@[2]@ == "cursor-theme"@,
        a.0@[3]@ == theme@,
        a.1@.len() == 4,
        a.1@[0]@ == "set"@,
        a.1@[1]@ == "org.gnome.desktop.interface"@,
        a.1@[2]@ == "cursor-size"@,
        a.1@[3]@ == decimal(size as nat),
{
    let mut t: Vec<String> = Vec::new();
    t.push(String::from_str("set"));
    t.push(String::from_str("org.gnome.desktop.interface"));
    t.push(String::from_str("cursor-theme"));
    t.push(String::from_str(theme));
    let mut s: Vec<String> = Vec::new();
    s.push(String::from_str("set"));
    s.push(String::from_str("org.gnome.desktop.interface"));
    s.push(String::from_str("cursor-size"));
    s.push(u32_to_string(size));
    (t, s)
}

/// The report for the GNOME settings: skipped where `gsettings` is missing.
pub fn report(gsettings_available: bool) -> (r: ApplyReport)
    ensures
        r.target@ == "gtk"@,
        r.changed == gsettings_available,
        r.skipped == !gsettings_available,
        r.message@ == (if gsettings_available {
            "updated gsettings cursor values"@
        } else {
            "gsettings unavailable"@
        }),
{
    if gsettings_available {
        ApplyReport::changed("gtk", String::from_str("updated gsettings cursor values"))
    } else {
        ApplyReport::skipped("gtk", String::from_str("gsettings unavailable"))
    }
}

} // verus!
