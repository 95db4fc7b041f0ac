# jjit

`jjit` brings a language model to [jj](https://jj-vcs.github.io/jj/): it
writes commit messages, finds commits from a description and packs several
commits into one.  This crate is its verified core, written for Verus.

## Layout

- `src/` — the library.  Every function is proved against its contract,
  except six small trusted wrappers whose contracts are assumed: the calls
  into quick-xml (`open_reader`, `next_event` in `xml.rs`) and vcs-runner
  (`parse_diff_summary` in `jj_util.rs`), and three std calls that Verus has
  no specification for (`String::from_utf8_lossy`, `str::to_lowercase`,
  `String::push`).  The modules:
  - `text.rs`, `strmap.rs` — string helpers and an insertion-ordered string map;
  - `xml.rs`, `output.rs` — tokenising a reply with quick-xml and reading its
    `<commit>`, `<goto>`, `<pack>` or `<reply>` fields;
  - `config.rs`, `cli.rs` — layered settings and command-line overrides;
  - `jj_util.rs` — the `jj` runs the commands make and the reading of their output;
  - `commands/` — the prompts and what each reply leads to;
  - `llm.rs` — the request, the retry schedule and the decoding of the stream.
- `app/` — the program around it: argument parsing, files, `jj` processes,
  HTTP streaming and printing.
- `tests/` — tests of the library.
