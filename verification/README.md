# chess

A chess library written in Verus: board representation, legal move generation, making and
taking back moves, position keys and a position cache, and a static evaluation of positions.
A small window around it lets a person play against a random mover.

`src/` is the verified library:

- boards and pieces: `piece`, `chessbyte` (the bits of a board byte), `point`, `bits`,
  `mask` (64-bit square sets), `maskset`;
- moves: `moves` (the moves of each kind of piece), `legal` (the legal moves of a position,
  castling included), `boardarray` (making and taking back moves on a board), `motion`;
- positions: `state` (a position with its history and its cache of moves), `zobrist`
  (position keys drawn in a fixed order from a ChaCha8 generator seeded with 123, and a cache
  of analysed positions), `game` (reading a position in Forsyth-Edwards notation, and the
  clicks of a person at the board), `heap` (evaluated moves, best first), `searchtree`;
- evaluation: `material`, `pawn`, `mobility`, `imbalance`, `pieces`, `threats`, `passed`,
  `evaluator`, `evaluation` (the static evaluation sums ten terms: material, square weights,
  imbalance, bishop pair, pawn structure, piece placement, mobility, threats, passed pawns
  and tempo);
- the pieces as objects of their own: `figure`;
- the decisions of the window's driving loop: `manager` (including the random mover of
  bench mode), `ui`.

There is no game-tree search in the library.

Public functions state what they return or change in their `ensures`, except where an
outside crate decides (which move the random mover draws). The laws of the library (what
taking a move back restores, what flipping a board twice gives, what the cache hands back,
that listed moves keep the king safe and never land on an own piece, how square counts of
unions and complements relate, ...) are public proof functions next to the functions they
speak of.

`tests/` runs the library on concrete positions. `app/` is the window (eframe): it draws the
board, passes clicks to the library and runs the loop whose decisions `manager` takes.
