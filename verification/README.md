# raycasting

A small first-person maze game drawn by ray casting, with its logic verified
by Verus.

- `src/` is the verified library: the framebuffer and its drawing
  primitives (`framebuffer`), the maze file format and cell rules (`maze`),
  the 5x7 bitmap font (`text`), wall, minimap and flame colours (`palette`),
  the integer parts of the renderer (`render`) and the game's screens and
  sound decisions (`game`). Each public function states its full effect in
  its contract; the properties that span functions are proof functions next
  to them.
- `app/` is the program: the window and keyboard (minifb), sound (rodio),
  and the floating-point geometry of rays, movement and sprites
  (nalgebra-glm vectors), which calls into the library.
- `tests/` runs the library on concrete values.

Maze files hold one row per line: a space is an empty cell, `p` is where the
player starts, `g` or `G` is the goal, and every other character is a wall
drawn in its own colour.
