# bkmr

A bookmark, snippet and script manager for the command line, with its core
written in Verus. The library's functions in `src/` carry contracts that
the verifier proves, with two exceptions: the wrappers around outside
crates and std (regular expressions, markdown, lowercasing, hashing for
random draws), whose contracts are believed as stated in their doc
comments, and the trait declarations, which carry none.

## Layout

- `src/` — the verified library:
  - `bookmark.rs`, `tag.rs`, `repository.rs`: bookmarks, tags and the store
    that holds them, with the laws of adding, updating and deleting.
  - `search.rs`, `bookmark_service.rs`, `bookmark_application_service.rs`,
    `tag_service.rs`, `tag_report.rs`, `embedding_service.rs`: the services
    over the store (search, tag operations, imports, random draws,
    embedding bookkeeping).
  - `file_import.rs`: importing scanned files as bookmarks.
  - `timestamp.rs`: times as UTC dates.
  - `template.rs`: the plain-text template a bookmark is edited in, with
    its parser and the round-trip law.
  - `actions.rs`, `markdown.rs`: the default action of each content type,
    and the markdown page (headers, table of contents).
  - `cli.rs`, `fzf.rs`, `display.rs`, `config.rs`, `dto.rs`: command-line
    decisions, listings as colored pieces, finder options, request and
    response types.
  - `text.rs`, `num.rs`, `order.rs`, `patterns.rs`, `sample.rs`: text,
    numbers, orderings, regular expressions and random draws.
- `app/` — the program around the library: arguments, settings file,
  terminal output and the interactive prompt.
- `tests/` — tests run against the compiled library.

Work that needs the outside world (fetching pages, computing embeddings,
hashing content, running editors and shells) is done by the caller; the
library takes what came back as arguments and decides what is stored.
