# squid

A static site generator whose core is written in Verus and proved against
its contracts.

- `src/` is the verified library: the template functions (`tinylang`), the
  tag taxonomy (`tags`), markdown frontmatter (`md`), the sitemap and RSS
  feed texts (`sitemap`, `rss`), code-block highlighting (`highlight`), and
  the decisions of the command-line program and its preview server (`app`,
  `http`), and the site settings file (`settings`). Shared text, ordering and
  grouping pieces live in `text`, `order`, `sorted` and `gather`; template
  values in `value`; the fit between escaping and unescaping in `entities`.
- `app/` is the `squid` program around it: argument parsing, files, the
  preview server and the watcher.
- `tests/` runs the library on concrete inputs.

Calls into chrono, syntect and rss, and the walk over a `HashMap`, go
through small trusted wrappers: each makes one outside call, converts its
arguments and result, and states in its contract what the outside code
returns. Every choice the site makes about those calls, such as falling back
to plain text for an unknown language, is made in verified code.
