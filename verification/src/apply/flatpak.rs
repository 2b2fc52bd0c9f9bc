//! The Flatpak overrides that let sandboxed applications see the cursor.

use vstd::prelude::*;

use crate::apply::ApplyReport;
use crate::text::{decimal, join_path, joined_path, u32_to_string};

verus! {

/// The arguments of the two `flatpak` calls: one lets applications read
/// `~/.icons`, one sets the cursor environment.
pub fn override_args(home: &str, theme: &str, size: u32) -> (a: (Vec<String>, Vec<String>))
    ensures
        a.0@.len() == 3,
        a.0@[0]@ == "override"@,
        a.0@[1]@ == "--user"@,
        a.0@[2]@ == "--filesystem="@ + joined_path(home@, ".icons"@) + ":ro"@,
        a.1@.len() == 4,
        a.1@[0]@ == "override"@,
        a.1@[1]@ == "--user"@,
        a.1@[2]@ == "--env=XCURSOR_THEME="@ + theme@,
        a.1@[3]@ == "--env=XCURSOR_SIZE="@ + decimal(size as nat),
{
    let mut mount = String::from_str("--filesystem=");
    mount.append(join_path(home, ".icons").as_str());
    mount.append(":ro");
    let mut env_theme = String::from_str("--env=XCURSOR_THEME=");
    env_theme.append(theme);
    let mut env_size = String::from_str("--env=XCURSOR_SIZE=");
    env_size.append(u32_to_string(size).as_str());
    let mut first: Vec<String> = Vec::new();
    first.push(String::from_str("override"));
    first.push(String::from_str("--user"));
    first.push(mount);
    let mut second: Vec<String> = Vec::new();
    second.push(String::from_str("override"));
    second.push(String::from_str("--user"));
    second.push(env_theme);
    second.push(env_size);
    (first, second)
}

/// The report for the Flatpak overrides: skipped where `flatpak` is missing.
pub fn report(flatpak_available: bool) -> (r: ApplyReport)
    ensures
        r.target@ == "flatpak"@,
        r.changed == flatpak_available,
        r.skipped == !flatpak_available,
        r.message@ == (if flatpak_available {
            "updated flatpak cursor overrides"@
        } else {
            "flatpak unavailable"@
        }),
{
    if flatpak_available {
        ApplyReport::changed("flatpak", String::from_str("updated flatpak cursor overrides"))
    } else {
        ApplyReport::skipped("flatpak", String::from_str("flatpak unavailable"))
    }
}

} // verus!
