# site

The logic of a static site generator for a blog and music reviews, verified with Verus.

- `src/` is the library. `markdown` parses Markdown documents (with `comrak`), takes their
  front matter out, estimates their reading time and renders them to HTML with LaTeX turned into
  MathML (with `latex2mathml`); `markdown::latex` says which equations `latex2mathml` can be
  handed, and `markdown::highlighter` gives the tags around highlighted code.
  `templates` holds publication statuses, the archives (published items, newest first) and the
  feeds' times of last update, and the blog articles and reviews. `pages` says where pages,
  cover art and assets go. `text` holds string helpers.
- `app/` is the program that reads the content, asks MusicBrainz, writes `docs/`, reads front
  matter with `serde` and `toml`, and renders the pages with `askama` templates and `inkjet`
  highlighting. It also makes `comrak`'s render options, whose switch for raw HTML the library
  cannot name.
- `tests/` runs the library on concrete documents and values.
