# boardgame

A Catan game server and the board model of its Seafarers client, with the
rules proved in Verus.

- `src/element.rs`, `src/geometry.rs`: coordinates, lines, and how the tile
  grid and the point grid fit together.
- `src/model.rs`, `src/trail.rs`: the line maps that hold roads and boats, and
  the longest trail through a set of lines (the longest road).
- `src/catan/`: the game. `rules.rs` states every move as a function on a
  mathematical game state; `game.rs` carries the moves out and is proved to
  follow those rules; `turn.rs` is the turn order as a state machine (from the
  state and a player's action to the next state, the messages to send and
  whom to ask next); `data.rs` deals the starting board; `laws.rs` holds the
  properties that hold across moves.
- `src/seafarers/`: the board with boats, the client's picture of the game
  (`view.rs`), which takes the server's messages one at a time, and what the
  player's clicks lead to once the screen has found what was clicked
  (`input.rs`).
- `src/games/greedy_snake.rs`: the snake game's rules.
- `src/random.rs`: dice and shuffles, from the `rand` crate.
- `app/`: the network server that seats the players and runs the state
  machine of `catan::turn`.
- `tests/`: games played through the library, and the laws on concrete
  values.
