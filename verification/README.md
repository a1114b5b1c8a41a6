# infinite

A mod manager for Diablo II: Resurrected. Mods are directories with a
`mod.json` and a `mod.lua` script; the scripts read and rewrite the game's
JSON, TSV and text files, and the results are written below the game's
`Mods/Infinite/Infinite.mpq/data` directory.

## Layout

- `src/` is the library, verified with Verus:
  - `mod_sources` reads mod lists (`path/to/mod`, `github:owner/repo[:subdir][@branch]`),
    writes the keys of GitHub mods and maps them to their download directories;
  - `file_manager` tracks the files that mods extract, read and write, and holds
    the in-memory cache through which several mods chain their changes to one file;
  - `tsv`, `json`, `runtime` (text) read and write the game's file formats;
  - `config` and `loader` hold mod metadata and user configuration with its defaults;
  - `lua_tables` turns a script's TSV table into rows; `mod_entries` is the
    mod list of the front end; `github`, `casc` and `cli` hold the decisions and
    names behind downloads, archive lookups and the command line;
  - `handover` holds what is written beside the mods: the text and place of
    modinfo.json, and the configuration that the front end hands over for
    GitHub mods, looked up by mod key;
  - `text` and `keyed` are the string and association-list helpers the rest builds on.
- `app/` is the command line program: argument parsing, logging, disk and
  network access, the CASC archives and the Lua runtime.
- `tests/` exercises the library on concrete values.

The graphical front end is not built here: its mod list, GitHub address
handling, subdirectory choices and pre-checks are in `mod_entries`, but its
windows are not. Mods with a `mod.js` script are reported as needing the
JavaScript runtime, which this build does not include.
