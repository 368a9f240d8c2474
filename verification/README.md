# ascii_adventure

The rules of a small ASCII adventure played on a terminal grid: the player
walks a board of rooms, types commands at a prompt, picks up and drops items,
and leaves rooms through their exits.

- `src/` is the verified library. Each system of the game is a function from
  the state it reads to the state it writes, with a contract; what to draw is
  returned as a list of `DrawOp` instructions.
- `tests/` runs the library on concrete values.
- `app/main.rs` is the program: the window and terminal, the entity store, the
  clock, the keyboard and the room file `data.json`. It hands the library plain
  values and carries out what comes back.
