# chesspoker

The rules of a two-player game that mixes chess with cards: pieces slide and
jump on an eight by eight board, players draw and play cards whose effects
change the board and the turns, and card games of blackjack and poker are
played out along the way. A matchmaker hands out games to clients.

Every function under `src/` is verified with Verus against its `requires` /
`ensures` contract, except a few thin wrappers marked
`#[verifier::external_body]` that call `rs_poker`, `rand` and `String::push`:
their contracts are taken on trust. The physics that moves pieces and squares is not part of
the library: the game asks for it through `PhysicalAction`s and is told where
the pieces stand.

Layout:

- `src/chesspoker/` — the card-and-chess game: `maingame/` (the game itself,
  its rules, board moves, card games and turn cycle), `cardstructs.rs` (cards,
  deck, hands and poker rounds), `datastructs.rs` (turns and game effects),
  `gameengine/` (piece moves of the board engine), `messages.rs`.
- `src/board/`, `src/boardobject/` — pieces, squares, kinds of piece, square
  conditions and the order in which squares are added.
- `src/game/`, `src/datastructs.rs`, `src/cardstructs.rs` — the card piles and
  effects, turn manager and jokers of the effect-card game.
- `src/matchmaker.rs` — open public and private matches.
- `src/handrank.rs`, `src/rng.rs`, `src/text.rs`, `src/mapfacts.rs` — poker
  hand ranks and random numbers from outside crates, text helpers, facts about
  hash maps.
- `tests/` — tests of the library; `app/` — JSON messages, the server side
  that starts games, and the floating-point geometry of moves.
