# xMahjong

A Mahjong solitaire game on the classic Turtle layout. The game logic is a
Verus library whose functions carry contracts proved by Verus; a thin SDL2
program drives it.

## Layout

- `src/` — the verified library:
  - `board`: the Turtle layout, blocking relations, freeness, pairs.
  - `generator`: solvable deals by reverse dealing (from a seed, a tile count or a face pool).
  - `logic`: selecting and matching tiles, undo, shuffle, hints, the end of a game.
  - `levels`, `session`: levels, starting a level, applying a click, save records.
  - `game_state`, `timer`, `storage`: the game state, the timer, scores, trophies and records.
  - `effects`, `display`: animations over time, highlights, the bitmap font, layout arithmetic.
  - `calendar`, `version`, `startup`, `input`, `audio`: dates, version numbers,
    command-line options, input mapping and sound decisions.
  - `clock`, `rng`, `text`: the trusted wrappers around the clocks, `rand` and strings.
- `tests/` — tests of the library.
- `app/` — the SDL2 window, event loop, rendering, sound and files.
