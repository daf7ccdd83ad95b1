# mini_wallpaper

The core of a Windows desktop wallpaper manager, written in Verus: the
functions under `src/` carry contracts that the verifier proves. Six small
wrappers around outside calls (`str::to_lowercase`, `char::is_alphanumeric`,
`String::push`, chrono's date parser, and tokio's task abort and finished
check) are marked `external_body`: their contracts are trusted, not proved.

- `src/` — the verified library: display geometry and full-screen detection,
  carousel and timer planning (`scheduler`, `monitor_config`, `registry`),
  collection ordering (`collection`), the trash (`trash`), smart collection
  rules (`smart_rule`), tags, global shortcuts, tray actions, settings,
  wallpaper files and windows, backups and byte progress.
- `tests/` — tests of the library on concrete values.
- `app/` — a thin command-line program around the library: Win32 calls,
  files, archives, images, the external video encoder and JSON.
