# revancex

A patch orchestrator for Android apps: it reads a YAML configuration of
apps, patch sources and build settings, fetches stock APKs from several
download sites, runs the Morphe patcher on them, and packs the results into
Magisk / KernelSU modules.

## Layout

- `src/` is the library, verified with Verus. Every public function states
  its result in `ensures` over spec functions of the library; the `lemma_*`
  proof functions state properties that span calls (ordering of versions,
  idempotent name normalisation, patch plans that include and exclude no
  patch at once when the app excludes no requested patch that the rules
  keep and no dependency adds an excluded one, one APK per package in a bundle,
  consistency of strict validation, grouping of apps by patch source, arch
  stripping that keeps only the target ABI, report counters that match the
  items of a whole run, base64 text that decodes back to its bytes).
  - `config/` configuration model, defaults, validation, duplicate YAML keys
  - `patcher/` patch-name rules, patch plans, `list-patches` parsing, the CLI call
  - `builder/` download-site scraping and choice of sources, manifest surgery,
    arch stripping and lite optimisation rules
  - `module/` module contents, ordering within the size budget, checks of a
    built module
  - `orchestrator/` patch-source discovery, update detection, build steps
  - `utils/` versions, GitHub releases, keystore, binary manifest reading
  - `text.rs`, `collections.rs`, `pattern.rs` strings, ordered maps, regexes
- `tests/` runs the library on concrete values.
- `app/` is the command-line program: file, process and network I/O around
  the library, and the serde copies of the configuration types.
