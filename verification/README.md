# merged_lands

Merges the landscape (LAND) changes of Morrowind plugins into one plugin, with the
configuration handling of OpenMW's `openmw.cfg` chains. The library under `src/` is verified
with Verus; `app/` is the command-line program around it.

This build stops after it has planned a merge (settings, data directories, load order and the
plugins to merge): the `tes3` release on crates.io that it depends on provides no reader or
writer for plugin files, so no LAND records are read and no plugin is written. The merging,
repair and cleaning steps are in the library and covered by its tests.

Layout of `src/`:

- `config/`: the `openmw.cfg` model: settings, loading a chain of files, editing and writing
  them back (`roundtrip.rs` and `laws.rs` hold the laws proved of it), locating the files.
- `io/`: the application's own settings file, the data directories and load order of the
  plugins, the plan of a merge, and what conflict images show.
- `land/`: grid coordinates and the differences of LAND records from their reference.
- `merge/`: terrain maps relative to a reference, conflict classification, merge strategies,
  texture and cell merging.
- `repair/`: cleaning unmodified records, debug vertex colors, and seam repair between cells.
- `path.rs`, `text.rs`, `term_style.rs`: paths, text and terminal styling.

The tests under `tests/` exercise the library from outside.
