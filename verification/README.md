# cursor_optimizer

A storage maintenance tool for the Cursor editor: it measures, compacts and
prunes the editor's `state.vscdb` SQLite database, backs it up with zstd, and
ships with an installer and a packaging tool.

The logic is a library verified with Verus (`src/`):

- `paths`, `locations`: where the application and the editor keep their data.
- `cleanup`, `conversations`: how old a stored conversation is, and which rows
  a deep clean removes, decided row by row as the database is scanned.
- `overview`, `reports`, `progress`, `numbers`: the storage breakdown, the
  result documents of each task, progress messages and human-readable sizes.
- `operations`, `requests`: which task may start while others run or the
  editor is open, the journal of a running write, and recovery after a crash.
- `tools`, `backup`, `process`, `desktop`, `browse`, `icon`: backup names and
  levels, compaction progress, free-space output, editor process detection,
  the window bridge, the folder browser and the window icon.
- `installer`, `packaging`: install locations and registration per platform,
  and the steps that build each release artifact.
- `json`, `json_round_trip`, `text`, `text_set`: a small JSON reader and writer
  (with the proof that written documents read back), and text helpers.

Two collections are held differently from a plain hash collection:

- The coordinator keeps its running reads in a `Vec` of snapshots, each
  request id once (`distinct_ids`), rather than a `HashMap` keyed by request
  id. The status lists the running reads, and a hash map's walk order is not
  fixed, so no contract could say in which order they come; the `Vec` keeps
  the order in which the reads began, which is one of the orders a hash map
  may give, and `read_order` states it.
- The conversation scan keeps composer ids in `TextSet`, a sorted `Vec` of
  strings without repeats, rather than a `HashSet<String>`. With `String`
  keys, vstd's hash collections give too little to prove membership after an
  insert; the sorted `Vec` has its order and uniqueness as its invariant, and
  its view is the set of its texts.

Paths are joined and taken apart as the running system does: with `/` on
Unix, and with `\` (reading `/` too, and drive, share and device prefixes)
on Windows; functions that build paths take the system's family. Taking a
path apart (`path_components`, `windows_paths`) reads its components from the
back as the standard library does, so `.` components and repeated separators
are skipped: the folder of `/a/b/.` is `/a` and its name is `b`.

`app/` holds what runs around the library: the SQLite queries (rusqlite),
compression of the backup stream (zstd), the windows (tao, wry), file system
and process work, and the command-line entry points. `tests/` exercises the
library through its public interface.
