# sorry

A Sorry! board-game engine whose logic is proved with Verus, and the
multiplayer server around it.

- `src/` is the verified library: the board and its space numbering, the
  card deck, the standard rules, legal-move generation and move
  application, the built-in bot strategies, the turn-by-turn game state
  machine (`InteractiveGame`), whole-game play (`Game`), batch simulation
  (`Simulator`), and the multiplayer room logic (`server`): seats, hosts,
  lobby settings, turn timers and the messages sent to each seat.
  Randomness, UUIDs and text formatting come from outside crates through a
  few trusted wrappers in `rng.rs`, `text.rs` and `server/session.rs`.
- `app/` is the program: command-line arguments, the HTTP and WebSocket
  routes, locks, clocks and timers, the JSON wire forms of the library's
  types, the floating-point board geometry, and the browser bridge.
- `tests/` runs the library on concrete games, seeds and rooms.

The library's laws (card conservation, legal moves obeying the rules,
what a move does to every pawn, distinct placements, and others) are
public proof functions next to the code they speak of. `replay.rs` holds
the replay laws: games dealt from one seed and played by the same seats
(any of the built-in strategies) end with the same record, whether played
whole by `Game::play`, turn by turn with bots, or in a `Simulator` batch.
