# DynamoDB violation detector

A library that finds the items of a DynamoDB table that violate the key schema of a
global or local secondary index (existing or only planned) or the expected shape of a
TTL attribute, and a terminal program around it. The library is written in Verus: its
contracts are proved, but for those of a few calls into std and outside crates, each of
which says in its doc comment what it takes for granted.

- `src/domain.rs`, `src/aws.rs`: items, attribute values, table descriptions, pages.
- `src/config.rs`, `src/assemble.rs`: the configuration and the rules made from it and
  from the table's description.
- `src/rules.rs`: the rules themselves, on one item.
- `src/scan.rs`: the segment workers of a parallel scan and the rate limiter they share,
  as state machines.
- `src/state.rs`: counters, rates and the estimate of the time left.
- `src/export.rs`, `src/encode.rs`: the CSV and NDJSON exports.
- `src/tui/`, `src/shell.rs`: the screens, the keys and the course of a session.
- `src/text.rs`: numerals, padding and the order of names.
- `app/`: the program: the terminal, the files, the AWS SDK and the event loop.

Time is counted in nanoseconds and read capacity in units of a hundred-billionth RCU, so
that a rate limit in hundredths of an RCU per second is a whole number of units per
nanosecond.
