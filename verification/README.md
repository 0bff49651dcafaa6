# nitrocop

Layout and lint cops for Ruby source, in the manner of RuboCop, written in
Verus: each cop's decision logic is an executable function whose contract
states exactly which offenses it reports and which corrections it offers,
and Verus proves the code against it.

## Layout

- `src/` is the verified library.
  - `text.rs`, `bytes.rs`, `ascii.rs`: byte and line helpers, with the line
    split (`is_line_split`) that most contracts are stated over.
  - `code_map.rs`: which bytes of a source are code, comment, string or
    regexp, as the parser reports them.
  - `diagnostic.rs`: diagnostics, corrections and how they are applied.
  - `cop/layout/`, `cop/lint/`: one module per cop. Each takes the source
    and a plain model of the parse-tree nodes it looks at, and states its
    result as a spec function of them. Properties that span calls are
    public proof functions named `law_*` (and `lemma_*` where they speak of
    the model alone).
- `app/` turns the parse tree of `ruby_prism` into those models and runs the
  cops; it holds no rule of its own.
- `tests/` runs the cops on concrete sources.

The one outside call in the library is the `regex` crate, used by
`Lint/AmbiguousBlockAssociation` for its `AllowedPatterns` setting; its
contract names the match result and claims nothing else of it.
