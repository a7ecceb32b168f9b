# rocket_file_cache

An in-memory file cache that decides, by a priority score, which files to keep.

- `src/` is the library, verified with Verus. The cache decides and keeps its books; it never
  touches the file system. `Cache::get` answers a request with the file from memory, or with a
  `GetAction` naming what the caller reads next and which method of the cache completes the
  request. The contracts state what every operation does to the files and access counts the
  cache holds; `src/laws.rs` proves properties that span operations (an added file fits in the
  size limit, the files evicted are those of lowest priority, a stored file is served back).
- `src/conc_map.rs` holds the trusted declarations of the `concurrent-hashmap` maps that back
  the cache.
- `app/` is the Rocket glue: it reads files and metadata, opens files to stream, and turns what
  the cache hands out into responses.
- `tests/` exercises the library on files held in memory.
