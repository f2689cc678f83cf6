# pv-probability

How likely is this much solar power at this hour, and would a battery pay for itself? Both
questions are answered from the history that a Home Assistant recorder database already
holds, as HTML pages that need nothing but a browser.

- `src/` is the library, written in Verus: every function is proved against its contract.
  - `timeutil`, `text`: local time in IANA zones, text building blocks.
  - `sums`, `order`, `occurrence`: counting, sorting and finding, and what they rest on.
  - `model`, `grid`, `aggregate`, `analysis`: from samples to observation time per facet,
    hour and power, and from there to probabilities and reliable windows.
  - `coverage`: what a history covers, and where its outages are.
  - `storage`: two power sensors on one timeline, and which battery size comes out best.
  - `source`: how the recorder's tables are found, queried and turned into samples.
  - `render`, `report`, `cli`: pages, console output and the validation of arguments.
- `tests/` runs the library on concrete histories, in-memory databases among them.
- `app/` holds the command line tools: argument parsing, database access, files, threads and
  everything that computes with floating point numbers.

What the proofs rest on besides the verifier is stated where it is used: `text.rs` (two
functions of the standard library), `order.rs` (sorting a slice) and the end of `timeutil.rs`
(`chrono` and `chrono-tz`).
