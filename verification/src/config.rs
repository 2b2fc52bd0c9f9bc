//! Cursor size limits and the locations the tool manages under a home directory.

use vstd::prelude::*;

use crate::text::{join_path, joined_path};

verus! {

/// The cursor size used when nothing else is chosen.
pub const DEFAULT_SIZE: u32 = 24;

/// The smallest cursor size that can be applied.
pub const MIN_SIZE: u32 = 8;

/// The largest cursor size that can be applied.
pub const MAX_SIZE: u32 = 128;

/// The files and directories the tool reads and writes, for one home directory.
pub struct Paths {
    pub home: String,
    pub icon_dirs: Vec<String>,
    pub xresources: String,
    pub hypr_cursor_conf: String,
    pub default_icon_theme: String,
    pub backup_dir: String,
}

impl Paths {
    /// The locations under `home`: the icon search roots in priority order
    /// (`~/.local/share/icons`, `~/.icons`, `/usr/share/icons`), the
    /// Xresources file, the Hyprland cursor config, the default icon theme
    /// file and the backup directory.
    pub fn from_home(home: String) -> (p: Self)
        ensures
            p.home@ == home@,
            p.icon_dirs@.len() == 3,
            p.icon_dirs@[0]@ == joined_path(home@, ".local/share/icons"@),
            p.icon_dirs@[1]@ == joined_path(home@, ".icons"@),
            p.icon_dirs@[2]@ == "/usr/share/icons"@,
            p.xresources@ == joined_path(home@, ".Xresources"@),
            p.hypr_cursor_conf@ == joined_path(home@, ".config/hypr/cursor.conf"@),
            p.default_icon_theme@ == joined_path(home@, ".icons/default/index.theme"@),
            p.backup_dir@ == joined_path(home@, ".local/state/cursors/backups"@),
    {
        let mut icon_dirs: Vec<String> = Vec::new();
        icon_dirs.push(join_path(home.as_str(), ".local/share/icons"));
        icon_dirs.push(join_path(home.as_str(), ".icons"));
        icon_dirs.push(String::from_str("/usr/share/icons"));
        let xresources = join_path(home.as_str(), ".Xresources");
        let hypr_cursor_conf = join_path(home.as_str(), ".config/hypr/cursor.conf");
        let default_icon_theme = join_path(home.as_str(), ".icons/default/index.theme");
        let backup_dir = join_path(home.as_str(), ".local/state/cursors/backups");
        Paths { home, icon_dirs, xresources, hypr_cursor_conf, default_icon_theme, backup_dir }
    }
}

/// `size` brought into `MIN_SIZE..=MAX_SIZE`.
pub open spec fn spec_clamp_size(size: u32) -> u32 {
    if size < MIN_SIZE {
        MIN_SIZE
    } else if size > MAX_SIZE {
        MAX_SIZE
    } else {
        size
    }
}

/// Brings a cursor size into the range `MIN_SIZE..=MAX_SIZE`.
pub fn clamp_size(size: u32) -> (r: u32)
    ensures
        r == spec_clamp_size(size),
        MIN_SIZE <= r <= MAX_SIZE,
        MIN_SIZE <= size <= MAX_SIZE ==> r == size,
{
    if size < MIN_SIZE {
        MIN_SIZE
    } else if size > MAX_SIZE {
        MAX_SIZE
    } else {
        size
    }
}

/// Clamping is idempotent: a clamped size is left as it is.
pub proof fn lemma_clamp_size_idempotent(size: u32)
    ensures
        spec_clamp_size(spec_clamp_size(size)) == spec_clamp_size(size),
{
}

} // verus!
