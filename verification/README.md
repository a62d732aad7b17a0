# image-drift-tracker

Tracks configuration drift on rpm-ostree systems by comparing the live
filesystem with the base deployment: both trees are scanned under the same
include/exclude rules, file contents are hashed and metadata recorded, and the
differences are reported as added, removed, content-changed,
metadata-changed, symlink-target-changed or type-changed paths.

## Layout

- `src/` — the library, verified with Verus.
  - `path.rs`: paths as component sequences (parsing, string form, join,
    prefix tests), with the string round trip proved.
  - `order.rs`: the lexicographic order of paths and its laws.
  - `config.rs`: default include/exclude lists, `~` expansion, normalization.
  - `scanner.rs`: file entries, exclusion and walk decisions, root-relative
    paths, remapping, and the sort that collects scanned paths.
  - `snapshot.rs`: a scan result as a sorted map from paths to entries.
  - `diff.rs`: classification of drift and the merge that compares snapshots.
  - `baseline.rs`: baseline selection, including the rpm-ostree deployment
    lookup.
  - `report.rs`, `output.rs`: the report, its summary and printed lines, and
    text diffs.
- `tests/` — tests of the library on concrete values.
- `app/` — the command-line program: argument parsing, filesystem walking,
  running `rpm-ostree`, JSON output and printing.
