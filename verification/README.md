# minesweeper

A console minesweeper whose game logic is verified with Verus.

- `src/` is the verified library:
  - `cell`: what the hidden board holds at a position;
  - `grid`: views of the boards and counting over them;
  - `flood`: `count_nearby_mines`, the recursive flood fill that opens a cell
    and spreads over cells without mines around;
  - `mines`: laying the mines at the first opening;
  - `game`: one game and its reaction to each key;
  - `menu`: the main menu and the custom mode menu;
  - `render`, `text`: the text drawn on screen.
- `app/` reads keys from the terminal, clears and prints the screen and writes
  `debug.txt`.
- `tests/` runs the library on concrete boards.

Boards, visible cells: `*` unopened, `_` opened, `P` flagged, `[*]` under the
cursor, `1`, `2`... the number of mines around.
