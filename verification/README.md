# Foxlite

A minimal, memory-light browser on the system's webview. The browser's logic is a
Verus library; a Tauri program around it owns the window, the webviews, the files
and the threads.

- `src/` is the library: address-bar text, tabs and their order of use, the
  session, history, bookmarks and icons, suggestions, the save schedule, the
  content blocker's rules and course, menus, layout plans and the stall detector.
  Every function states what it does in its contract. Proof functions named
  `law_...` state what holds across functions.
- `tests/` runs the library on concrete values.
- `app/` is the program. It embeds the generated rule set of the content blocker,
  `blocklist/rules.jsonl.br`, which is put in place before the program is built.

Sizes, zoom factors and coordinates are floating point. The library carries them as
bit patterns and `app/geometry.rs` computes with them. Times are handed in: a
monotonic clock in nanoseconds, and the seconds since 1970 from the system clock.
