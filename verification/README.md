# himalaya

The logic of the Himalaya e-mail client, verified with Verus: command-line
argument parsing (ids and flags, raw messages, templates and headers) and
the state machine of the terminal interface (envelope list, message view,
sections per account, the actions of each key).

- `src/` is the verified library.
  - `text.rs`: string helpers (trimming, splitting, joining, line endings,
    number parsing, name sorting) and their specifications.
  - `account_arg.rs`, `flag_arg.rs`, `message_arg.rs`, `template_arg.rs`:
    the argument types and parsers.
  - `tui/`: the interface state (`app.rs`), flag letters (`flags.rs`),
    envelopes as the list shows them (`envelope.rs`), key bindings
    (`event.rs`), what the screens show (`ui.rs`), the event-loop state
    machine (`control.rs`) and account loading (`load.rs`).
  - `laws.rs`: properties that relate several functions, proved.
- `tests/` runs the library on concrete values.
- `app/` is the program around it: command line, terminal drawing and
  input, and the mail backends.

## Dependencies

`email-lib` is the mail library the program is built on; the library calls
it for flags. It is taken without its default features to keep the build
small, with `tokio` as its runtime. `mml-lib` (with `rustls`) and
`secret-lib` (with `rustls`) are not called directly: `email-lib` depends on
both, and each refuses to build unless a TLS implementation is chosen.
Naming them here with `rustls` makes that choice without turning on
`email-lib`'s own TLS features, which would pull in far more crates.
`clap` and `shellexpand-utils` serve the command line in `app/`.
