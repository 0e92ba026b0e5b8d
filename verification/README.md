# Erika shared HDR adapter

An adapter between a video player and a C-compatible HDR enhancement engine. Decoded frames are
submitted to the engine without waiting for it; completed outputs stay alive until the native
renderer has presented them.

- `src/` is the core, verified with Verus. It decides which frames are submitted, which completions
  are drawn, held or discarded, what a presentation callback leads to, how an output is placed on the
  display and when, and what is reported. Its methods take the replies of the engine and return what
  to do next. Floating-point values are bit patterns there, with arithmetic that is proved to be
  correctly rounded.
- `app/` makes the calls: the engine's C interface, the environment, the native renderer and the
  report file.
- `tests/` runs the core on concrete values, and its arithmetic against the machine's.

The core trusts `serde_json` with reading, changing and writing the measurements document, and
`String::from_utf8_lossy` with decoding the engine's messages; the contracts in `measurements` and
`error` say what is taken for granted.
