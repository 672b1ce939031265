# phosphor_fm

A dual-pane terminal file manager whose logic is a library verified with Verus.

- `src/` is the verified library:
  - `entry.rs`: directory entries, their column texts and the stable sort by
    name, size, date or type (directories first);
  - `pane.rs`: one pane: listing, search filter, cursor, scrolling, selection;
  - `app.rs`: the two panes, focus, preview switch, input modes;
  - `input.rs`: what each key does in each mode, the file system work it asks
    for, and the status messages once that work is done;
  - `ops.rs`: previews (hex dump with format detection, text lines, directory
    summary) and byte counts;
  - `ui.rs`: the text and colours of every line on screen, path and name
    shortening;
  - `text.rs`, `units.rs`, `paths.rs`: strings, decimal numbers with one
    rounded decimal place, and the few standard-library and chrono calls the
    logic needs, behind trusted wrappers.
- `app/` is the program around it: command line, terminal, reading
  directories, copying/moving/deleting files, drawing with ratatui.
- `tests/` exercise the library on concrete values.
