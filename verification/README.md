# IPaPS

A network inspector: it resolves a domain, pings each of its addresses, looks up
their host names and locations, and scans all 65,535 TCP ports of an address.

- `src/` is the library. It holds what the inspector decides and computes, with
  contracts that Verus proves: the state and its reports, the record of a scan,
  the order of the work, the reading of replies, and every text that is shown.
- `app/` is the program around it: the window, threads, sockets, child
  processes and HTTP requests, and the few figures that take floating-point
  arithmetic.
- `tests/` runs the library on concrete values.

What holds of the inspector as a whole is stated and proved in `src/laws.rs`;
laws of a single part stand with that part.

The library trusts a few outside functions, each declared with what it is taken
to do: `String::push` in `src/text.rs`, `String::from_utf8_lossy` in
`src/reverse.rs`, and the parser and accessors of `serde_json` in `src/geo.rs`.
