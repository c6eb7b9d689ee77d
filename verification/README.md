# deepmind_patches

The shared DeepMind patch library as code: one `.syx` and one `.toml` per
sound under `presets/<Category>/`. The crate checks that layout, derives what
the program bytes say, builds the `index.toml` a release ships, and makes the
repository tool's decisions (versioning, release notes, summaries, new
patches). A category folder is spelled the way the instrument writes the
category (`SFX`, `Pad`) or by the category's name (`Sound Effects`, `Pads`);
ids, icon files and the index use the name. `src/` is written in Verus: its
functions are proved against their contracts, all but the few that call
outside crates, whose contracts are taken from those crates' sources.

- `src/` is the library. Reading the disk, git and the network is not done
  there: the library is handed what was read and decides what it means.
- `app/` is the repository tool (`validate`): argument parsing, the walk over
  a checkout, git, downloads, and `index.toml` through serde.
- `tests/` runs the library on concrete values.

The calls into `deepmind-midi`, `toml`, `sha2`, `spdx`, `flate2` and `tar`
stand in `src/` behind small functions whose contracts say what those crates
do; each names the function it calls in its documentation.
