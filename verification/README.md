# nile

Game logic of Nile, a tile-laying game in which two to four players, human
or computer, extend a river across a 21x21 board towards the end-of-game
column on its right, verified with Verus.

## Layout

- `src/` — the verified library
  - `tile.rs`: tiles, rotations, coordinates, the set of coordinates of a
    turn, and the tile box (shuffled with `rand`)
  - `path.rs`: the paths a tile shows, their offsets, and how a placement
    continues the river
  - `score.rs`: turn scores and their algebra
  - `board.rs`: cells, bonuses, placing and taking back tiles, and the
    validation of a turn's moves (crossings, encirclement, end of game)
  - `player.rs`: racks (a `smallvec::SmallVec`), scores, drawing tiles
  - `log.rs`, `event.rs`: the undo/redo logs
  - `nile.rs`: the game (`Nile`) and the engine around it (`Engine`):
    selection, undo/redo, and the computer players' turns
  - `ai/brute.rs`: the computer player, an exhaustive search for the best
    net score
  - `supply.rs`: tiles are neither made nor lost by any move of the game,
    by undoing or redoing one, or by a computer player's turn
  - `state.rs`, `menu.rs`, `utils.rs`: the decisions of the user interface
  - `constants.rs`, `text.rs`, `error.rs`: texts and errors
- `tests/` — tests of the library
- `app/` — browser bindings (`wasm-bindgen`), the serde forms of events, and
  the writer of the front end's constants file
