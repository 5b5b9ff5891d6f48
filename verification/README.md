# osmflat-taginfo

A taginfo.openstreetmap.org-compatible reader over an osmflat archive and its
osmflat-ext `Taginfo` sidecar, with the logic behind its six endpoints
(`keys`, `key … stats|values|combinations`, `tag … stats|combinations`)
written in Verus and proved against its contracts.

Layout:

- `src/` — the verified library: per-type counts and 4-place fractions
  (`counts`), bbox-clipped together-counts (`bbox`), the byte order of strings
  (`order`), ranking rows as a stable sort does (`rank`), the endpoints' row
  builders (`endpoints/`), paging and the taginfo envelope (`output`), the
  aligned table format (`table`), the `data_until` timestamp (`freshness`),
  the command surface (`cli`) and the HTTP side's parameters, `?bbox=` fields
  and status codes (`routes`). What it reads off an opened parent archive is in `archive`.
- `app/` — the program around it: argument parsing (clap), opening the archive
  and sidecar, the sidecar's query layer, JSON output and the axum server.
- `tests/` — the library's tests.
