# jev-scout

A scout for real open-source repositories and crates: it searches GitHub
and crates.io, has each candidate scored by the TypeSafe Jev service, and
ranks the candidates by fit times confidence. It runs as a command-line tool
or as a stdio tool server for coding agents.

The library under `src/` is verified with Verus:

- `search`: query encoding (with proofs that form decoding gives the bytes
  back and that the output alphabet and length are as documented), request URLs, routing by ecosystem, the search cache key, reading
  registry answers into candidates, and failure messages.
- `jev`: the evaluation cache key (independent of candidate order), the
  questions of the request, ISO-8601 date reading,
  Gregorian day numbers (with proofs that successive days get successive
  numbers and that a day number counts the days from 1970-01-01), the 180-day staleness rule, and the stable descending ranking
  order (with a proof that it is unique).
- `cache`: a time-bounded cache (with a lookup that counts the limit itself
  as expired, and one that does not) with read-after-write and expiry laws.
- `trend`: the remembered top pick per query, read from and written to
  its JSON file text.
- `mcp`: what the tool server answers to each request line.
- `cli`: what each command-line argument means.
- `text`, `json`, `types`, `policy`: shared helpers, JSON reading, the
  candidate record, and the whole-number thresholds.

`app/` holds the program around it: HTTP requests, standard input and
output, environment, files, threads, and the floating-point scoring.
