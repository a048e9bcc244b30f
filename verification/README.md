# rsbasic terminal front end, verified

The decisions of RS-BASIC's terminal front end, written in Verus with their
contracts proved.

- `src/` — the library, verified:
  - `text` — whitespace, trimming, splitting, decimal and hexadecimal numbers;
  - `error` — error kinds and how an error is shown;
  - `listing` — a program as numbered lines, in line-number order;
  - `decorate` — listing lines with error columns underlined;
  - `keys` — what a key sends, and the upper-case editor's bindings;
  - `completer` — line recall by line number;
  - `patch` — where programs come from, saving, quoted names, checksums;
  - `loader` — loading files and patch files, as a state machine fed the
    lines of a file;
  - `session` — the interactive loop's decisions, as a state machine.
- `tests/` — tests of the library on concrete values.
- `app/` — the terminal, file and network input and output that the library's
  decisions ask for.
