# trace

**trace** finds out which functions of a C or C++ project may call which, through
pointers too, and what becomes of the arguments of those calls. It preprocesses
the sources itself, parses them with tree-sitter, solves a field-sensitive
points-to problem over the whole project, and writes what it found to SQLite.

The library under `src/` is written in Verus. Every function in it has a
contract that says what it returns, and Verus proves that it does. What the
library takes from other crates is listed in `src/collections.rs`,
`src/text.rs`, `src/index/parse.rs` and `src/export/options.rs`: those
declarations are relied on, not proved.

## Layout

| Path | What is there |
|------|---------------|
| `src/preproc/` | The preprocessor: tokens, macros, conditions, headers, and the map from its output back to the original lines. |
| `src/index/` | Finding sources, the include graph, syntax trees, lowering them to flow constraints, and merging the sources of a project. |
| `src/ir/` | Symbols, types and flows of a program. |
| `src/analysis/` | The pointer assignment graph, its solver, and models of library functions. |
| `src/export/` | The rows of the tables that an analysis is written to. |
| `src/cli/` | What the command line accepts, asks a database, and says. |
| `app/` | The program around the library: arguments, files, threads and the database. |
| `tests/` | Tests of the library on concrete projects. |

What holds of the library as a whole is stated and proved beside the code:

| Where | What is proved |
|-------|----------------|
| `src/preproc/laws.rs` | What skipped text does, that every `#if` takes at most one of its branches, what directives do to the levels of `#if`, that a condition ends at the same token whether it is evaluated or skipped, that headers that are kept replay alike. |
| `src/preproc/substitute.rs` | That no `##` is left once all have been carried out. |
| `src/ir/lookup.rs` | That what a name means in a file comes first among all that it may mean. |
| `src/index/laws.rs`, `references.rs`, `files.rs`, `contents.rs` | That no function is lost when sources are merged, that names lead to functions of those names, and that calls, variables and flows refer to what is there. |
| `src/index/repeats.rs`, `stand_ins.rs`, `builds.rs` | That a second merge of a source adds nothing, that one function stands in for a name that nothing declares, and that two builds of a project are equal. |
| `src/analysis/ending.rs` | That the solver settles by itself where nothing limits it. |
| `src/analysis/laws.rs`, `flows.rs`, `calls.rs`, `fields.rs`, `arguments.rs` | That once the solver settles no copy, load, store, field access or call through a pointer is left undone. |
| `src/analysis/edges.rs`, `held.rs`, `nodes.rs`, `results.rs` | That every edge has its reason, that places that are held and nodes that constraints lead to are there, and what a result says with and without bridges. |
| `src/export/laws.rs` | Which rows of an export refer to which others. |

## Use

```bash
trace analyze ./project -o trace.db --include ./project/include -D DEBUG=1
trace inspect trace.db calls --from main
trace inspect trace.db callgraph --file main.c --line 12 --depth 2
trace inspect trace.db dataflow --file main.c --line 14 --col 9 --direction up
```

`TRACE_SOLVE_BUDGET_POPS` limits how many nodes the solver looks at; `0` lifts
the limit. A result that ran out of it holds only some of the calls.
