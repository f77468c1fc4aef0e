# api-traffic-report

Reads one JSON Lines log of API requests and writes one JSON traffic report:
line counts by kind (total, processed, valid, malformed, blank), a traffic cube
of request counts by client, endpoint and status code, and per-client rate-limit
violations (more than five requests in a UTC-aligned ten-second bucket).

The library in `src/` is verified with Verus:

- `order` — byte-wise text order and its proofs.
- `tally` — sorted tallies of keys, with insertion, uniqueness and
  order-independence lemmas.
- `ids` — client id, endpoint and status code types.
- `record` — blank-line detection and request-record parsing; JSON reading
  (`serde_json`) and RFC 3339 timestamps (`time`) are the trusted calls.
- `aggregate` — the streaming accumulator and the report.
- `report` — line splitting and `build_report` over a whole input.
- `laws` — properties of the report that hold for every input.

`app/` holds the command-line program: argument handling, file reading, line
streaming (long lines go through a `BlankScan`) and JSON output.
