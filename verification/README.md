# launchpad

The core of a full-screen Windows application launcher, written in Verus
with its behaviour stated as contracts and proved.

- `src/` is the verified library: configuration defaults, per-folder
  metadata (custom names and order), how folder entries are listed and
  ordered, hotkey parsing, a model of Windows paths, UTF-16 conversion,
  shortcut naming, the debounce of file-system events, the monitor bounding
  box, and icon pixel work (channel swap, mask alpha, trimming transparent
  margins, PNG encoding).
- `app/` is the Windows shell around it: the Tauri application, COM and
  GDI calls, file I/O and the JSON copies of the library's types.
- `tests/` exercises the library on concrete values.
