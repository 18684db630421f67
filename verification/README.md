# totk mod merging, verified

The logic that finds, configures and packages mods for *The Legend of Zelda:
Tears of the Kingdom*, and that decides how they are merged, written in
Verus: each function states what it returns in `requires` / `ensures`, and
Verus proves it.

What it does not hold is the work on the game's file formats: reading and
writing BYML, MSBT and SARC files, and merging their contents, is done by
the host program through the `Backend` and `FolderBackend` traits of
`app/`, which this crate does not implement. The library decides which
files are merged, with which merger and inputs, which rows and entries
change, and what the results record; the host carries the formats.

## Layout

- `src/` — the verified library (crate `lib`).
  - `text`, `paths`, `json`, `ini`: text as sequences of characters, SD card
    paths, the JSON and INI readers and writers the settings use.
  - `config`, `options`, `profile`, `mods`, `install`: settings, option
    selections, profiles, mod folders and their `mod.ini`, installing mods.
  - `tkcl`: the `.tkcl` package format (attributes, wire encoding, codec,
    package contents and metadata).
  - `canonical`, `rom`, `byml_keys`, `builder`, `folder`, `merger`,
    `byml_merge`, `byml_changelog`: game paths, the game's path tables, how
    array entries are keyed, which builder and which merger a file takes,
    what a changelog build does with each file of a mod folder and how it
    records the entries, which version of a changelog file is read, the
    code patches, and what a merge does with each target file.
  - `rsdb`, `gamedata`, `packs`: the tag tables (what a mod changes in an
    entry's tags, how several mods' edits merge, and the compiled bit
    table), the row bookkeeping and save file sizes of a save data list
    merge, and how merged files are gathered into packs.
  - `conflicts`, `merge_cache`, `cache`, `engine`, `control`, `progress`:
    conflict reports and which mods collide over values, the merge cache and
    its index, the decisions of a merge run, who controls the merge, and its
    progress.
- `tests/` — tests run against the compiled library.
- `app/` — the file system, logging and the loop that runs a merge's steps
  around the library; the format work it hands to the host program.

## Laws

Beside the contracts of its functions, the library proves, among others:

- what is written can be read back: INI values (`ini::lemma_escape_round_trip`),
  profiles (`profile::lemma_profile_round_trip`), `mod.ini` files
  (`mods::lemma_info_round_trip`), conflict tables
  (`conflicts::lemma_tsv_round_trip`), change logs
  (`tkcl::wire::lemma_changelog_round_trip`), the merge cache's index, recent
  list and served files (`cache`, `merge_cache`);
- option selections stay sorted with one entry per group
  (`options::lemma_insert_sorted`, `options::lemma_insert_lookup`);
- only one owner controls a merge at a time (`control::lemma_one_owner_at_a_time`),
  and whoever waits for the end of a merge is told once (`control::lemma_told_once`);
- a merge recorded for a plan is served by a later run of it, without
  merging (`engine::lemma_recorded_merge_serves`, `engine::lemma_later_run_serves`);
- however many mods edit a tag table, no path gets two entries
  (`rsdb::lemma_merged_entries_unique`), an entry whose tags match
  vanilla's makes no edit (`rsdb::lemma_same_tags_no_changes`), and the
  changes a mod makes to an entry's tags, applied to vanilla's, give back
  the mod's tags (`rsdb::lemma_changes_give_back_tags`);
- a folder build keeps one entry per file (`folder::lemma_one_entry_per_file`);
- a save data table's rows come out in hash order, each once
  (`gamedata::lemma_hash_order`).
