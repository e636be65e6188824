# render_md

A Markdown-to-HTML site renderer with a small template language (`{{.var}}`,
`{{.include}}`, `{{.if}}/{{.else}}/{{.end}}`, `{{.block}}/{{.end}}`), written in Verus.

## Layout

- `src/`: the library, verified by Verus.
  - `lexer.rs`: finding `{{. ... }}` tags and parsing their directives. The positions it
    reports (`find_tag_end`, `TagMatch` offsets, error spans) count bytes of the UTF-8
    text.
  - `args.rs`, `condition.rs`, `filters.rs`: include arguments, `.if` conditions, filters.
  - `environment.rs`: the `Environment` trait, each operation described by a spec function
    of the environment.
  - `evaluator.rs`: the evaluation of a template against any `Environment`, specified by
    `env_eval` over those spec functions (and by `eval_spec` over answers given directly).
  - `fs_env.rs`: the environment backed by a source directory: include paths kept inside
    `src_dir`, component argument schemas, block markup and the include depth limit. Its
    evaluation is specified exactly by `fs_eval`, and the error kind of a failure by
    `fs_eval_fault`.
  - `paths.rs`: path components and `..`/`.` normalization.
  - `engine.rs`: routes, staleness, front matter merging and page rendering.
  - `markdown.rs`: Markdown rendering through pulldown-cmark, with configured classes;
    the parse and the HTML writer are named over plain values (`markdown_kinds`,
    `markdown_html`).
  - `serve.rs`: the decisions of serving one CGI request, as a state machine.
  - `strmap.rs`, `text.rs`, `error.rs`: string maps, text helpers and errors.
- `tests/`: tests run against the compiled library.
- `app/`: the programs around the library: reading files and front matter, the CGI
  entry point and the `compile` command, Tailwind invocation.

The library reads no file itself: files an include needs are handed to it in a
`SourceStore`, and a file not yet there is reported as a `SourceRequired` error naming
its normalized path, which the caller loads before evaluating again.
