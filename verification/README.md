# gospel_getter

A Bible reader: browse the books, pick a chapter, and read it with the
chapters before and after it shown beside it.

- `src/` is the verified library: chapter navigation across book
  boundaries (`domain::bible`), the records the reading screens are built
  from (`commands`), the planning of the bundled-translation seed
  (`db::seed`), the database-path, legacy-copy and listen-address decisions,
  decimal formatting (`text`), and the page of the desktop shell
  (`ui`); the desktop shell itself is not part of this workspace.
- `app/` is the web server around it: configuration, SQLite access,
  HTTP routes and HTML templates; it does not serve the desktop page.
- `tests/` runs the library on concrete values.
