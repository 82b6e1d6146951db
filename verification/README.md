# vigilcut

The verified core of a local post-production engine: events → policy → EDL →
artifacts, plus a library of images that a visual plan places on the edited
video.

- `src/` is the library, written for Verus: every function carries its
  contract, and the laws of the library stand there as proof functions
  (time-map round trip, cancel registry, protection lifted, hash distance,
  approval rules, …). Times are milliseconds, scores thousandths, match scores
  twenty-thousandths; seconds printed with a fixed number of decimals are
  those of the nearest binary64 value, worked out with integer arithmetic.
- Calls into outside crates (`reqwest`'s URL parser, `image`, `sha2`, `hex`,
  `base64`, `serde_json`, `uuid`) stand behind small trusted wrappers whose
  results are named, so every contract above them is exact over those names.
- `app/` holds what Verus cannot: files, DNS and HTTP, the download loop that
  follows redirects, and the serde copies of library types for the interface.
- `tests/` runs the library on concrete values.

A generated candidate enters the library only after a person approves it;
`approval` holds the decisions of that flow, and `enqueue` those of queueing a
generation and of rejecting a candidate, taken between the store's reads and
writes.
