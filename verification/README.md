# wiki

A small wiki engine. Markdown files in a folder are compiled to HTML and kept
in a store; a file watcher keeps them compiled while they change.

- `src/` is the verified library:
  - `path`: Unix path arithmetic on strings (final name, stripping a leading
    folder), with two laws: the key of `root/rel` is `rel` when every segment
    of `rel` names something (no empty or `.` segments, `lemma_strip_joined`),
    and a key is relative and joins back onto a non-empty root to give the
    components of the file (`lemma_strip_rejoins`; for the empty root,
    `lemma_strip_empty_base`: the key has the file's components and is
    relative exactly when the file is);
  - `front`: locating and reading the YAML front matter of an article;
  - `article`, `db`: article keys, hashes, titles and the two article records;
  - `compiler`, `host`: when a file is compiled again and what is stored,
    with the laws that a second compile of the same text changes nothing;
  - `watch`: which watcher notices reach the compiler;
  - `digest`, `markdown`, `yaml`: the calls into `sha2`, `pulldown-cmark` and
    `serde_yaml`, with their trusted contracts;
  - `text`: strings as character vectors.
- `app/` is the program around it: command line, configuration, logging,
  the RocksDB store, the search index, the watcher threads, the HTTP server
  and the SpiderMonkey runtime.
- `tests/` runs the library on concrete values, and checks the path
  functions against `std::path` on many paths.
