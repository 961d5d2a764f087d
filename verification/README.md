# floapalette

The logic of FloaPalette, a floating command palette for Windows that types
saved commands and keyboard shortcuts into the window that had the focus,
written in Verus and verified.

- `src/` is the verified library:
  - `model`: the palette's data (categories of commands, settings, and the
    command files of another palette that can be imported), each with a view.
  - `validate`: when loaded data is worth showing; which data file the
    settings choose.
  - `import`: building palette data from imported command files (category by
    label, colours, slugs as ids, item numbering), with the laws that imported
    data is well formed and always valid.
  - `shortcut`: the Windows form of a shortcut, key names and their
    virtual-key codes, chords and chord sequences.
  - `win_input`: the key strokes that paste a command or type a chord, the
    clipboard text, the target window that is recorded, and the answers on
    platforms without input injection.
  - `text`: the string handling these rest on (white space, trimming,
    splitting, replacing), each function proved against a short definition.
- `tests/` runs the library on concrete values.
- `app/` is the Tauri program around it: files, settings, JSON, the window and
  the Windows calls that inject input.
