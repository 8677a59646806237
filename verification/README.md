# tetris_board

Reads a Tetris board (the 10 x 20 field and the five upcoming pieces) from
screen captures, and plans key presses.

- `src/` — the verified library (Verus): pictures as plain pixel data
  (`image`), the field and piece recognition (`screen`), the reference colours
  (`values`), the in-game check (`checker`), the text display of a board
  (`display`) and key-press plans (`key`).
- `app/` — the program around it: screen capture, image files, OpenCV colour
  conversion and k-means clustering, the screen-ratio geometry (floating
  point), and sending key presses.
- `tests/` — tests of the library on concrete values.
