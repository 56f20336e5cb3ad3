# dc — dead code in Django projects

`dc` finds functions, classes, methods and module-level variables of a Django
project that nothing uses. It parses every Python file with tree-sitter,
extracts the definitions and the names each scope uses, builds a dependency
graph (petgraph) and reports the entities that no root reaches. Roots are the
modules, the entry points known from Django, DRF, Celery and Pytest
conventions, names used dynamically (`getattr`, URL configurations, configured
names) and the methods of framework-driven classes, a property that spreads
along the class hierarchy of the project.

The logic is a Verus library whose behaviour is stated in `requires` /
`ensures` contracts and proved:

- `src/config.rs` — which configuration source wins (explicit file, `.dc.toml`,
  `[tool.dc]` of `pyproject.toml`, defaults);
- `src/heuristics.rs` — the framework conventions;
- `src/paths.rs`, `src/order.rs`, `src/sorting.rs` — module paths, path order
  and a sort by location;
- `src/pipeline/` — file selection, parsing into a plain syntax tree,
  extraction, the dependency graph and reachability, and the report;
- `src/graph.rs` — petgraph graphs and a depth-first search proved to mark
  exactly the nodes a walk from a root reaches;
- `src/render.rs` — the text report, the exit code and the warnings.

`app/` is the command line tool around the library: argument parsing (clap),
walking the project (ignore), reading files, parallel parsing (rayon), TOML
and JSON (serde), and the allocator (mimalloc).

Exit codes: `0` no dead code, `1` dead code found, `2` configuration or
start-up error.
