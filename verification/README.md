# quote_replacer

Rewrites full-width punctuation and typographic quotes (`“”‘’（）《》「」『』。，、；：？！……—～·`)
into their plain ASCII forms, with user-editable mappings and an optional
Windows keyboard hook that types plain punctuation for Alt + key.

- `src/` — the verified library:
  - `text`: `str::replace`-style replacement over characters (`replace_spec`) and applying a list of mappings in turn (`replace_each`);
  - `mapping`: `MappingEntry`, `AppSettings`, the built-in mappings and the lookup table built from a list of mappings;
  - `editor`: the window's state (`QuoteReplacer`) and what each user action does to it;
  - `hook`: which key events the keyboard hook rewrites, and into what;
  - `display`: how a mapping is shown in the list.
- `app/` — the desktop program around it: the egui window, the JSON settings file, the keyboard hook thread.
- `tests/` — tests of the library.

The desktop program in `app/` also needs `eframe` 0.29, `enigo` 0.2 and
`windows` 0.58 (features `Win32_Foundation`, `Win32_UI_WindowsAndMessaging`),
which `Cargo.toml` does not declare; the library and its tests need none of them.
