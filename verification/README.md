# ssg

A static site generator. Content files (markdown with front matter) become
pages; pages are grouped into collections and tags, listed in an RSS feed and
a sitemap, and served by a small development server that rebuilds on change.

Layout:

- `src/` — the library, verified with Verus: front matter splitting, link
  extraction, slugs and output paths, the reverse link graph, tag and
  collection grouping, the date order of pages, the feed and sitemap text,
  the values each template is rendered from, the server's routing and
  replies, and the rebuild decisions of a build.
- `app/` — the command-line program: argument parsing, reading and writing
  files, parsing TOML, rendering templates with Tera, watching files and
  serving HTTP. It calls the library for every decision.
- `tests/` — tests of the library on concrete inputs.
