# ea_compiler

The front end and compilation support of the compiler for Eä, a small systems
language with built-in SIMD types, written in Verus: each function of the
library carries a `requires`/`ensures` contract that Verus proves.

## Layout

- `src/` — the verified library
  - `lexer/` — the lexer (`scan.rs` scans one token; `mod.rs` tracks lines,
    columns and byte offsets and collects tokens) and token classification
    (`tokens.rs`: keywords, types, operators, SIMD shapes and hardware widths)
  - `parser/` — the parser: the token cursor, type names, SIMD vector types,
    recovery after errors, fix suggestions and keyword corrections
    (`mod.rs`), and the recursive-descent grammar of declarations,
    statements and expressions (`grammar.rs`), whose trees follow the
    precedence table and are the trees its spec functions give, for every
    declaration, statement and expression form, block expressions within
    expressions included
  - `ast.rs`, `error.rs` — the syntax tree and the compiler's errors
  - `execution_mode.rs` — choosing between JIT execution and compilation from a
    program's complexity
  - `memory/` — stack/heap/region classification of variables and access
    patterns
  - `memory_profiler.rs` — per-phase memory usage, peaks, timeline and limit
  - `jit_cache.rs` — the cache of JIT results: lookups, expiry and eviction
  - `incremental_compilation.rs`, `dependency_order.rs`, `name_map.rs` —
    change detection and dependency-ordered recompilation
  - `parallel_compilation.rs` — jobs, results and statistics of parallel
    compilation
  - `parser_optimization.rs` — memoized parse results, recursion limits, parse
    timing and expression complexity
  - `package.rs` — semantic versions, version requirements and registry
    version records
  - `text.rs`, `hashing.rs` — text building and content hashing
- `tests/` — tests of the library
- `app/` — the `ea` command and what the library leaves to a program: the
  process-wide profiler and caches, the file system, worker threads, and
  floating-point ratios
