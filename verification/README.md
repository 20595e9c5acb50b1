# sf_pkgen

Generates Salesforce `package.xml` manifests, either from an interactive two-pane
picker or from `--types` / `--all` on the command line, optionally starting from the
selections of an existing manifest (`--inherit`).

## Layout

- `src/` — the library, verified with Verus:
  - `xml.rs`, `inherit.rs`, `xmlread.rs`: writing and reading the manifest format
    (reading goes through `quick-xml`, behind small trusted wrappers);
  - `non_interactive.rs`: resolution of `--types` / `--all` against the org's types;
  - `tui/`: the picker's state (`app.rs`), its key handling (`event.rs`), the
    component-loading protocol (`runner.rs`), what each pane shows (`view.rs`) and
    fuzzy ranking through `nucleo-matcher` (`fuzzy.rs`);
  - `generate.rs`: the whole command as a state machine from events to requests
    (including each call of the `sf` CLI with its arguments);
  - `sf_client.rs`, `ansi.rs`: the `sf` CLI's argument lists and the interpretation of
    its replies;
  - `output.rs`, `cli.rs`, `signal.rs`, `error.rs`, `wildcard.rs`: the smaller rules;
  - `text.rs`, `strmap.rs`: string helpers and a sorted string-keyed map.
- `app/` — the executable: argument parsing (`clap`), running `sf` and parsing its
  JSON (`serde_json`), the terminal (`crossterm`, `ratatui`), Ctrl+C (`ctrlc`), and the
  loop that performs each request of the `generate` state machine.
- `tests/` — tests of the library.
