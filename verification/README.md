# cursors

A terminal browser for Linux cursor themes: search the installed themes,
choose a size, apply a theme (GNOME settings, `~/.Xresources`, Hyprland,
Flatpak and the default icon theme), and restore earlier cursor states from
restore points under `~/.local/state/cursors/backups/`.

The library (`src/`) holds the logic with its contracts, proved by Verus:

- `app` — the browser state, the theme and restore-point searches, selection and size;
- `event` — what each key press does to the browser, and the work it leaves to the caller;
- `theme` — theme families, recognising cursor themes, merging the themes of the search roots;
- `system::backup` — restore point names, their metadata read back, their order;
- `system::fs` — replacing the cursor lines of a shared file;
- `system::command` — naming commands to the shell;
- `apply` — the text and arguments written for each target, and the reports;
- `state`, `config`, `ui`, `text` — the desktop's current cursor, the managed paths, screen texts, and the character-level string operations the rest is stated over.

The program (`app/`) reads the keyboard, draws with ratatui, touches files and
runs commands, and hands the library plain values.
