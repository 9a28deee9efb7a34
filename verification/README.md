# pidf

The verified core of PiDF, a desktop PDF reader whose pages are rendered by
PDFium on worker threads and shown in a web view.

`src/` is a Verus library. It holds the decisions of the reader on plain
values, each with a contract proved by Verus:

- `normalize`, `config`: clamping of page numbers, widths and priorities;
  worker count and logging switches read from environment values.
- `text`, `decimal`, `keys`, `trace`, `loading`: PDF file-name checks,
  decimal text, session ids, cache keys, disk-cache file names, log lines,
  PDFium search paths and load errors.
- `entries`, `page_cache`, `table`: the LRU cache of rendered pages and the
  string-keyed session tables.
- `ordering`, `scheduling`: deduplication and priority ordering of a batch of
  render requests.
- `disk_cache`: pruning plans for the on-disk render cache.
- `sessions`: the sessions of a worker, the owners of sessions in the pool,
  and the pruning schedule.

`app/` is the Tauri application around it: commands, worker threads and
channels, PDFium rendering, JPEG encoding and file-system access.
`tests/` exercises the library on concrete values.
