# discord_links

Collects the links that were posted in Discord channels within a span of time.

- `src/` is the library, verified with Verus: identifiers and times (`snowflake`, `utils`,
  `datetime`, `decimal`), the requests of the Discord API (`client`), fetching messages batch by
  batch (`paging`, with its laws in `paging_laws`), finding links (`links`, `scan`), and a run
  over all channels (`config`, `run`).
- `app/` is ordinary Rust around it: the `HttpClient` trait, the async client that sends the
  requests, the JSON forms of the types, and the run that reads the environment and writes the
  output.
- `tests/` runs the library.

The library leaves these to other crates: the search for links to `linkify`, the search for
excluded patterns to `aho-corasick`, and the calendar to `time`. What it relies on is stated in
the contracts of the functions marked `external_body`, and of `String::push` in the
`assume_specification` in `decimal`.
