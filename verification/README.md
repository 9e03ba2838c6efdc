# rhizome

A personal knowledge base of interlinked markdown pages, with its logic
verified by Verus.

- `src/` is the verified library: the markup of internal links and summaries
  (`markup`), reading a page and normalising its links (`page`), rewriting
  links and rendering markdown (`replacements`), credentials and password
  hashes (`authentication`), and what each web route decides (`routes`,
  `utils`). Calls into `percent-encoding`, `pulldown-cmark`, `argon2`, `rand`
  and `chrono` go through small trusted functions; their contracts state
  what those crates' sources show, and name what takes pages to state (the
  rendered HTML, Argon2 outputs, the formatted date).
- `app/` is the web application around it: the actix-web server, the
  PostgreSQL queries, sessions in Redis, flash messages and HTML templates.
- `tests/` runs the library on concrete inputs, and checks the link and
  summary markup against the same grammar written as regular expressions.
