# sdrtop

A terminal deck for radios and swept spectrum analysers. The logic of it is a
verified Verus library; the terminal, the serial line, the files and the floating
point stand around it.

## Layout

- `src/` is the library. Every function in it is verified against its contract.
  - `hardware/` what a radio is; `hardware/tinysa/` the protocol, the scans and the
    state of a tinySA.
  - `signal/` traces, spectra and the 2.4 GHz band: accumulation, publication,
    occupancy, survey plans, and the bookkeeping of streaming filters.
  - `state/`, `tasks/`, `session.rs`, `event.rs` what a session is made of and what
    each event does to it. The tasks are state machines: they say what to do, and are
    told what came of it.
  - `input/`, `ui/`, `export/` keys, panels and files as values.
- `tests/` runs the library on concrete values.
- `app/` is the program: threads, tasks, terminal, serial port and files.

## Conventions

- A level is in millionths of a decibel; a missing one is `None`.
- Times are in milliseconds, frequencies in hertz. What falls between two hertz is
  a fraction, never rounded.
- A function whose name begins with `law_` states something that holds across
  several functions.
- What is taken on trust from outside is marked where it stands: how a text is
  decoded from bytes, how wide a text is on a terminal, and how a character is
  appended to a string.
