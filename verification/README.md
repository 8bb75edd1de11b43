# wisdom

Wisdom compiles a Piecewise game description (pieces, states, events and
dynamic strings) into the HTML skeleton and the JavaScript load functions of a
static single-page game.

## Layout

- `src/` is the library, written in Verus. Every function in it carries a
  contract; the properties stated of several functions together are public
  proof functions (`lemma_*`).
  - `text.rs`: the string model (views, joining, lines, indentation, decimals).
  - `sections.rs`: splitting a line into string literals and code.
  - `runes.rs`: the rune scanner (`$>`, `$<`, `$name`, `$$`, comments).
  - `half_compiled.rs`: the first compilation pass over a dynamic string.
  - `dynamic_string.rs`: callback and binding strings and their compilation.
  - `state.rs`, `event.rs`, `pieces.rs`, `pieces/`: the game's building blocks
    and the JavaScript and HTML they produce.
  - `error.rs`: the error types.
  - `outside.rs`: the calls into `indent` and `itertools`.
- `tests/`: tests of the library on concrete inputs.
- `app/`: reading YAML files, the registry of custom piece types, and writing
  the built game to disk.
