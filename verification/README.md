# red-table

A keyboard-driven terminal image browser whose core is verified with Verus.

- `src/` is the verified library: the browsing model (filtering, focus, scrolling, marks),
  key bindings and their configuration, the browser's reaction to every key and event,
  command-line parsing, NUL-delimited path lists, zoom and crop geometry, the bounded caches
  of decoded sources and prepared thumbnails, the inspection worker's results, the Kitty
  graphics commands and image identifiers, the shared thumbnail cache's file names, source
  URIs, metadata, preparation steps and the PNG bytes of its files, decoding source images with their orientation and
  size limit, the layout of the grid's cards, and the texts of every screen. Each public function states its
  result in its contract; the `law_*` proof functions state properties that span calls.
- `app/` is the program around it: the terminal session, drawing with ratatui, background
  threads, resizing images, files, environment variables and the TOML file.
- `tests/` runs the library on concrete cases.
