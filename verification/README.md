# codex_memory

The memory subsystem of a coding agent, written in Verus: hierarchical
AGENTS.md loading with `@include` expansion, topic memories under
`topics/`, the three-section notepad, and the built-in memory tools.

- `src/` is the verified library. Every function states what it returns in
  its `ensures`; the `law_*` proof functions state what holds across
  operations (what a read gives back of a write, what pruning keeps, the
  order in which memory files load, ...).
- `app/` holds the file-system, clock and process work around the library:
  the async operations and the tool handlers.
- `tests/` runs the library on concrete values.

Modules of the library:

| module      | contents |
|-------------|----------|
| `text`      | character-level `str` operations over `Seq<char>` |
| `paths`     | Unix path joining, path identity; parent, extension and stem |
| `timestamps`| RFC 3339 instants |
| `notepad`   | notepad format, operations, statistics, lock decisions |
| `claudemd`  | frontmatter, load order, loading one file, the prompt, the cache |
| `includes`  | `@include` expansion against a snapshot of the file system |
| `memdir`    | topic files, ordering, relevance, the index, the prompt section |
| `tool_spec` | the tool specifications offered to the model |
| `tools`     | what each memory tool answers |
| `auth`      | choosing request credentials for a model provider |

Design notes:

- The memory-file cache is a `Vec` of entries keyed by `path_key`, the
  identity of a path as `Path` equality sees it (root, leading `.`, named
  components; repeated or trailing `/` and inner `.` do not count). vstd
  gives `HashMap` a usable specification only for keys whose hashing and
  equality it knows; with `PathBuf` or `String` keys nothing could be proved
  of a lookup. The `Vec` keeps the map view exact: `get` and `insert` are
  stated over `Map<Seq<char>, (FileTime, Seq<char>)>`.
- `@include` expansion records the files it has entered as strings of
  canonical paths (the caller canonicalises before it asks), which is what
  the cycle check compares.
- The name of the per-directory fallback memory file is a parameter of
  `memory_file_plan` and of the loader in `app/`, which passes the usual
  name; the contracts of the plan hold for any fallback name.
