# wordle

A five-letter word guessing game whose rules are a Verus-verified library.

- `src/` — the library, verified with Verus:
  - `status.rs`: letter statuses and their ranks;
  - `game_logic.rs`: feedback for a guess, the keyboard of letter statuses, hard-mode constraints, and the laws that tie them together (for example, the answer always satisfies hard mode);
  - `game_state.rs`: saved game records and running statistics, with the most guessed words;
  - `word_sets.rs`: parsing and checking word-list files;
  - `tui.rs`: the state machine behind the terminal front end;
  - `round.rs`: one round of the line-by-line game, guess by guess;
  - `display.rs`: colored text of guesses and keyboard rows;
  - `args.rs`, `session.rs`, `random.rs`: options, the checks a session makes, and random mode;
  - `text.rs`, `order.rs`: text helpers (trimming, lines, UTF-8 length, decimal numbers) and dictionary order with verified sorting.
- `app/` — the program around it: command line, files, JSON, terminal input and output.
- `tests/` — tests of the library.
