# automancy

The logic of the automancy factory game, verified with Verus.

- `src/` is the verified library:
  - `math::hex`: hexagonal grid coordinates.
  - `game`: tile coordinates, inventories, the saved forms of tile data,
    and the tile-entity and game state machines with their undo ring and
    render cache.
  - `input`: the key and mouse-button state machine.
  - `gui`: the screen stack and clickable areas.
  - `options`: the settings.
  - `map`: maps and their saved form.

  Calls into `hexagon_tiles`, `hashbrown` and `rand` go through a few
  trusted wrappers, each documented where it stands.
- `tests/` runs the library on concrete values.
- `app/` is the program around it: file I/O with `ron` and `zstd`, the
  serde forms of the library's types, camera geometry in floating point,
  and the loop that carries messages between the game and its tile
  entities. That loop tests each state machine's precondition with the
  machine's own `can_handle` before handing it a message.
