# loglens

A structured log analyzer: it reads JSON, logfmt, syslog and plain-text logs into
entries, counts and clusters them, finds error-rate anomalies, filters them, compresses
them into templates with the Drain algorithm, and generates mock logs.

The library under `src/` is written in Verus. Every function carries a contract over a
mathematical model of its data (sequences of characters, sequences of entries, count
tables), and Verus proves the code against it:

- `models` — log levels, entries, field and count tables, message templates;
- `parser` — one reader per format, line-by-line reading of a whole text;
- `analyzer` — statistics, error clusters, anomaly buckets;
- `filter`, `selection` — filter expressions and the selections of the command line;
- `compress` — tokens, variable detection and the Drain parse tree;
- `output` — escaping and the rows of CSV, TSV and table output;
- `generate` — simulated services, template filling and line layouts;
- `time`, `pattern`, `text` — the calls into `chrono`, `regex` and std whose results
  the contracts name.

`app/` is the command-line program around the library: argument parsing, files and
standard input, colours, serialisation, and the computations done in floating point.
`tests/` holds the tests of the library.
