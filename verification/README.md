# mimport

A single-user pipeline for curating a music library: resolve artists and
releases through MusicBrainz or the Lidarr metadata proxy, rank the editions
of a release group, fetch a release from Soulseek (slskd) or YouTube
(yt-dlp), clean up the downloaded files and import them, correctly tagged and
placed, into a library that can then be queried and edited.

## Layout

- `src/` — the library, written in Verus. Every function in it carries a
  contract and is verified: release normalisation, track matching and forced
  mappings, destination and tag planning, tag-override and romanisation
  rules, the library query language and its SQL, Soulseek selector
  resolution and the search and transfer wait machines, the lossless search
  view, retry decisions, cover-art selection and caching rules, the post-fix
  rules and the yt-dlp argument and output handling. Calls into other crates
  (`pathfinding`'s assignment solver, `image`, a few `std` path and Unicode
  functions) sit behind small trusted wrappers whose contracts say what the
  crate documents.
- `app/` — the command-line program around it: argument parsing, HTTP, the
  SQLite store, file and tag I/O (lofty, symphonia), external tools, JSON
  output, and the floating-point edition scores and match distances.
- `tests/` — tests of the library on concrete values.
