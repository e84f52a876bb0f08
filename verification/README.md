# rogue

The game logic of a small terminal roguelike, written in Verus and proved
against its contracts.

* `src/` is the verified library: room-and-corridor map generation
  (`map`, `rect`), the entities and their component storages (`components`,
  `world`, `spawner`), and the systems run each turn: player input
  (`player`), field of view (`visibility_system`), monster AI
  (`monster_ai_system`), map indexing (`map_indexing_system`), melee
  (`melee_combat_system`) and damage (`damage_system`), tied together by the
  turn cycle in `state`. The dice rolls and glyph codes come from
  `bracket-lib` through the trusted wrappers in `random` and `spawner`.
* `app/` is the terminal front end: it reads keys, asks `bracket-lib` for
  fields of view and A* paths, prints the combat log and draws the screen.
* `tests/` runs the library on concrete maps and worlds.
