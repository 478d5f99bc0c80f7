# jump_cube

The rules of a small jumping game, verified with Verus.

The player cube climbs a walled arena of blocks towards a goal block. Each
goal moves the run on to the next stage; after the last stage the ending
shows the run's time and jump count, and a click starts the next run, in
which the blocks carry numbers.

- `src/` — the verified library: stage layouts (`block`), decimal text
  (`text`), fixed values (`define`), and the run's state (`state`, with
  `state::game` for playing a stage and `state::ending` for the ending).
- `tests/` — tests of the library on concrete values.
- `app/` — the bevy program around the library: window, input, drawing,
  sound, and the floating-point movement and collision of the player.
