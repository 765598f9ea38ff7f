# anitrack

A verified core for a small anime library manager.

- `src/` is the library, checked by Verus:
  - `text` – character-level helpers (first line, whitespace words, trimming,
    non-overlapping replacement) with specifications matching the standard
    library's string functions.
  - `dir` – what a directory scan does with each entry: file extensions,
    decimal episode numbers, the title and episode that Anitomy finds in a
    file name, and how the scans of several directories are put together.
  - `video` – the video extensions and the length of a video from its
    FFmpeg duration.
  - `db` – the database records and the SQLite URL.
  - `mal` – the MyAnimeList login: the OAuth callback page and URL, the
    token expiry arithmetic, the steps of the login, and the MAL queries.
- `app/` is the program around it: database access, the directory walk,
  FFmpeg, the local HTTP listener, the browser and the MAL requests.
- `tests/` runs the library against the standard library and the real
  outside crates.
