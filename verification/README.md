# hust_rust

The core of the Hust-to-Rust transpiler as a verified Verus library.

- `src/` — the library, every function with a contract proved by Verus:
  - `translator.rs`: the translation rules, one function each, and the
    whole pipeline (`Translator::transpile`);
  - `modules.rs`: several modules translated into one text with namespaces;
  - `namespace.rs`: the namespace registry (declarations, `use` lines,
    functions, classes, methods, resolution, report);
  - `project.rs`: `settings.config`, modules and where their files lie;
  - `resolver.rs`: module dependency resolution as a state machine;
  - `plugins.rs`: the plugin pipeline;
  - `pattern.rs`: regular-expression search through the `regex` crate;
  - `text.rs`, `table.rs`, `order.rs`: character text, string-keyed
    tables and stable orders.
- `app/main.rs` — the `hust` command line: files, cargo, printing.
- `tests/` — tests of the library.
