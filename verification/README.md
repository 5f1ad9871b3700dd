# StartPE

A taskbar, start menu and desktop for Windows PE, with its logic verified by
Verus.

- `src/` decides. Every rule of the shell stands there as a function on plain
  values with a contract: which windows get a button, where everything is laid
  out and what is hit, how menus and the window switcher answer keys and the
  mouse, how settings, pins, tray registrations, desktop layouts and job files
  are read and written, and what each surface draws. A surface is painted as a
  list of drawing steps (`paint.rs`), so that what is drawn has a contract too.
- `tests/` runs the library on concrete values.
- `app/` talks to Windows: window procedures, hooks, COM, the registry, files
  and processes. It gathers facts, hands them to the library and performs what
  comes back. Before a call with a precondition it tests that precondition.

Handles of windows, icons and bitmaps are numbers in the library, and zero is no
handle. Lengths are in pixels, and metrics are given at 96 DPI and scaled.

Laws that span functions are public proof functions at the end of their
modules, such as `captured_layout_reads_back` in `desktop.rs` or
`moves_undo_each_other` in `menu.rs`.

Trusted without proof are four facts about the standard library, in `text.rs`
and `util.rs`: what `String::push`, `str::to_lowercase`,
`String::from_utf8_lossy` and `char::from_u32` return.
