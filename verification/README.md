# rustscout

A code search and replace library with its command-line front end.

- `src/` is the verified library. Its modules cover the text primitives
  (`text`, `paths`, `unicode`), pattern matching with word boundaries
  (`boundary`, `matcher`), file filtering (`filters`, `rtrace`), per-file
  processing and results (`processor`, `results`, `render`), search
  configuration and incremental caching (`config`, `cache`, `engine`),
  replacement planning, diffs and undo (`replace`, `plan`, `diff`, `undo`),
  and the decisions of the interactive and command-line front ends
  (`interactive`, `edit`, `cli`, `workspace`). Calls into `regex`, `glob`,
  `similar`, `unicode_categories` and `num_cpus` go through small trusted
  wrappers whose contracts name what the call returns.
- `app/` is the program: argument parsing with `clap`, walking the tree with
  `ignore`, reading and writing files, the terminal interface with
  `crossterm`, and the on-disk JSON/YAML forms of the library's records.
- `tests/` exercises the library on concrete inputs.
