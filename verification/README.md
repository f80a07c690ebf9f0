# briscola

A two-player Briscola engine with hidden-information Monte Carlo move
selection, written in Verus. Every function of the library but one trusted
wrapper around the standard slice swap carries a
contract that Verus proves.

## Layout

- `src/` — the verified library:
  - `card`, `bitset`, `rules`: the 40-card deck, card masks, trick winner and points;
  - `state`: public and fully determined game states, lead/reply transitions,
    the draw phase and the point-conservation laws;
  - `rng`: the xorshift64* generator and its Fisher–Yates shuffle;
  - `rollout`, `determinize`, `mc`: the greedy playout policy, world sampling and
    the Monte Carlo evaluator with its ranking laws;
  - `simulation`, `play`, `advisor`, `text`: whole-game simulation, the
    human-vs-AI game driver, the move advisor with its card notation parser;
  - `controls`: how key presses act on the interactive game screen.
- `tests/` — executable tests of the library.
- `app/` — the command-line program: argument handling, terminal I/O, JSON
  files and the terminal UI.
