# keiri

A solitaire Yahtzee engine whose rules, text formats and table building
blocks are verified with Verus.

## Layout

- `src/` is the verified library:
  - `category`, `dice`, `sheet`, `rules`, `state`: the categories, the five
    sorted dice, the score sheet, scoring, Joker rules, legal actions and the
    roll and score transitions under both rule variants.
  - `laws`: properties that span several functions (scores stay within
    their maxima, scoring raises the total by exactly its delta, the listed
    actions are exactly the accepted ones, the Joker and bonus rules).
  - `text`, `compact`, `bbg`, `cli`: reading and writing the compact state
    text, BuddyBoardGames page snapshots and command-line values; the compact
    text of a state reads back as the same state.
  - `anchor`, `table_file`, `table_build`, `dense`, `distribution`,
    `candidates`: keys, byte layout, checksums and turn tables of the exact
    table, roll outcome weights and the candidate holds a solver considers.
  - `simulation`: the seeded generator, the loop that plays a game for a
    `Player`, and the run of seeded games that an evaluation tallies.
- `tests/` runs the library on concrete values.
- `app/` is the command-line program: the expected-value solvers and agents
  (floating point), file I/O and the BuddyBoardGames browser helper.
