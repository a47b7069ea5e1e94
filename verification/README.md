# hipfire_serve

The verified core of a multi-slot inference server: which rows go into a step,
which requests are admitted, which tokens are committed, what the prefix cache
may resume from, and what the HTTP gateway answers. Each function states in its
contract what it returns or changes, and the laws (`law_*`) state what holds
across calls.

- `src/` is the library. Everything in it is proved; `json.rs` and `text.rs` hold
  the few calls into `serde_json` and the standard library that are trusted.
- `tests/` runs the library on concrete values.
- `app/` is the application around it: sockets, threads, clocks, floating point,
  and traits for the device.
