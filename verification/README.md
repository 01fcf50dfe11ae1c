# mcgill-wtf

Full-text search over McGill's course catalogue: a downloader that reads the
catalogue's search pages and course pages into course records, and a server
that indexes those records in RediSearch and answers queries.

- `src/` is the library, verified with Verus: text primitives (`text`),
  decimal numbers (`number`), the records (`model`), element selection over
  parsed HTML (`dom`), reading search and course pages (`extractor`), the
  search engine's commands (`command`), the course catalogue that answers
  searches (`catalog`) and the command line's jobs (`cli`).
- `app/` is the program around it: argument parsing, HTTP fetching, the
  Redis connection, JSON files and the web server.
- `tests/` exercises the library on concrete pages and values.
