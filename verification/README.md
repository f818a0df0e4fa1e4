# fever

The rules of "Fever", a small game in which you catch falling balls with a
net and shake a base to keep score, written as a Verus library: the game's
decisions over plain values (states, scoring, the level list, input
latches, set-up bookkeeping) are functions with contracts that Verus
proves. What works on floating point (forces, delays, chances, animation)
and on the engine's own types stays in `app/`.

- `src/` — the verified library:
  - `states` — program, gameplay and overlay states; the pause flags.
  - `level_state` — the level registry (ids kept distinct) and its laws.
  - `game` — level list ordering, scoring verdicts, the win/lose flow.
  - `logic` — catching, the spawn switch, the fire button latch, the
    shake clock.
  - `gui` — cursor grab, indicators, Escape handling, global toggles.
  - `world` — sky and reflection set-up, video settings, ground watching.
  - `animation` — named clips, the animation player a clip belongs to,
    and the assignment of clips to players.
  - `skycache` — cube-mapped skyboxes kept by source image and face size.
  - `span`, `text` — time spans and string comparisons used by the above.
- `tests/` — tests of the library on concrete values.
- `app/` — the game itself on the Bevy engine: systems read the world,
  ask the library what to do, and apply the answer.
