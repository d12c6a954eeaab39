# speed

A playful [Fast.com](https://fast.com) speed test for the terminal, with its logic verified in
[Verus](https://github.com/verus-lang/verus).

- `src/` is the library. Its functions carry contracts, and Verus proves all of them but those of
  the two functions in `layout` that call `ratatui`.
  - `run` is a run of the test as a machine: it is told what happened and says what to do next.
  - `discovery`, `latency` and `download` find the access token, the latency and the speed readings.
  - `speedtest` holds the updates and results that a run hands out.
  - `tui` is the state of the interactive screen, `screen` is what it shows, in the terms of
    `style` and `layout`.
  - `cli` is the command line.
  - `binary64` orders and rounds floating-point numbers by their bit patterns, and `text` searches
    and writes plain text.
- `app/` is the program around it: requests, the clock, the terminal, and floating-point arithmetic.
- `tests/` runs the library.

The layout of the screen is computed by `ratatui`. What is believed of it stands in the contracts of
the two functions in `src/layout.rs` that call it.

## Use

```sh
speed          # interactive screen
speed --once   # one line of output for scripts and pipes
speed --help
```

On the screen, Space, Enter or R starts another test, and Q, Esc or Ctrl+C exits.
