# rawssg

A static site generator library whose logic is verified with Verus.

- `src/` is the verified library: configuration and its validation, glob
  matching of content paths, path normalization and the checks that keep
  written and served paths inside their base directory, front matter
  splitting, the document and page pipelines, list pages, template contexts,
  and the answers of the development server.
- The file system, template engine, Markdown renderer, content handlers and
  processors are traits that callers implement. Where a result depends on
  what they answer, the contracts state the result over those answers (taken
  as values the caller's implementation chose): which entries are copied
  where, which handler or processor a file is offered to and in what order,
  which template and context each page is rendered with, and which failure
  stops a build. What a call does to the file system is not stated.
- `app/` holds what cannot be verified: the real file system, YAML and JSON
  parsing, the Tera template engine, the HTTP server and the file watcher.
- `tests/` exercises the library with an in-memory file system.
