# observer_ward

The decision logic of a community-based web fingerprint scanner, verified
with Verus, and the scanner program around it.

- `src/` — the verified library:
  - `targets`: scan targets from a block of text or a file's content, one per
    line, each once.
  - `result`: a target's scan result and the order results are reported in
    (stable, by descending priority).
  - `nuclei`: when a target gets a template scan, its command line, and how its
    findings change the result.
  - `report`: the result tables (cells, colours, wrapped titles) and line styles.
  - `helper`: which updates run, which release file a self update fetches, what
    a download reports, and where the fingerprint library is loaded from.
  - `messages`: the message log of updates, one message per key.
  - `api`: access control of the HTTP interface, the targets of a request, the
    webhook's authorization header, and the example request.
  - `text`: splitting, joining, de-duplicating and decimal notation, with
    their specifications.
- `tests/` — tests of the library on concrete values.
- `app/` — file and network access, the asynchronous scan pipeline, terminal
  output and the HTTP server, calling the library for every decision.
