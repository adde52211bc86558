# wave

The logic of the Wave music player as a Verus library. The functions in
`src/` carry `requires` / `ensures` contracts that Verus proves, except a
few small trusted wrappers around outside crates and std (base64, sha2,
image, url, uuid, `String::push`, `str::to_lowercase`, `char::is_alphanumeric`,
`slice::swap`); their contracts state what those crates document and are
not proved.

- `src/` — the verified library. Text handling (`text`, `snippet`), search
  queries and result ranking (`search`), home-page suggestions
  (`suggestions`), artist enrichment (`enrichment`), playlists, folder sync
  and backup files (`playlists`, `m3u`, `backup`), cover art and data URLs
  (`cover_art`, `b64`, `media_controls`), the command-line model and its
  text output (`cli`), paths and instance routing (`paths`, `instance`),
  the Android bridge's decisions (`android`, `exo`), playback state
  (`playback`), tag sizes (`id3`) and the shared records (`dto`, `track`,
  `errors`, `listen`, `lyrics`).
- `tests/` — tests of the library on concrete values.
- `app/` — the `wave` program around the library: argument parsing, files,
  settings on disk, and the floating-point audio and lyrics code.

Not part of this crate: the SQLite library store (the library holds the
decisions around it and takes the rows its queries read, such as the
Home page's candidate pool and similar-artist discovery, not the queries), the audio engine, the desktop window
and tray, and the playback daemon. The command-line commands that need the
store say so and exit.
