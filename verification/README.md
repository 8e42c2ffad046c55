# csgo_loader

The logic of a Windows loader that finds a CS:GO installation, unpacks bundled
tools and Lua libraries next to it, and keeps a small user profile, written in
Verus with its contracts proved.

- `src/` is the verified library:
  - `text`: characters, ASCII case, Unicode whitespace, lines, decimals.
  - `winpath`: Windows path text with drive, UNC, device and verbatim
    prefixes (file name, parent, join, components).
  - `game`: path keys, de-duplicated candidate lists, Steam's VDF formats and
    the places the loader looks in.
  - `search`: the search for the game directory and the structural scan, as
    state machines that the caller drives.
  - `archive`: ZIP archives in memory, through the `zip` crate.
  - `payload`: the products, their files, runtime checks and the Lua
    extraction.
  - `processes`: the Windows commands to list and stop processes and what
    their output means.
  - `document`: the JSON document as serde_json parses it, with field reads
    and `Map::insert`.
  - `profile`: the profile's fields, usernames and avatars (through
    `base64`).
  - `web`, `setup`: frontend routing and progress reports.
- `app/` is the Tauri program around it: file system, registry, processes,
  windows and events, and JSON parsing and printing with `serde_json`.
- `tests/` runs the library on concrete values.
