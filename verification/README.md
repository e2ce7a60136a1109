# website

The library behind a small web site, verified with Verus.

- `src/ahtml`: an arena allocator for HTML nodes and attributes, with
  run-time checks of the element structure, printing, escaping, and
  helpers that build markup (turning URLs into links, plain text that
  keeps its line breaks, the element metadata database and its source
  text form).
- `src/access_control`: input checks, user and session records,
  password and session-id hashing, retry decisions for transactions.
- `src/blog`: the date directories of the blog, its breadcrumb
  navigation and the split of a post into lead and rest.
- `src/handler.rs`, `src/hostrouter.rs`: which file a request names and
  how it is answered; routing by host name.
- `src/date_format.rs`, `src/apachelog.rs`: dates as HTTP and the logs
  show them, and the log lines.
- `tests/`: tests run against the compiled library.
- `app/`: the `hash_util` command and the I/O around the library (files,
  clocks, threads, environment, JSON, the HTTP server's responses, a
  request's language from its headers, and the example page, whose
  output rests on floating point).
