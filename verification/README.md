# fortress_sim

A small colony simulation in the style of Dwarf Fortress, with its rules
verified by Verus.

* `src/` is the verified library:
  * `world` and `worldgen`: the tile map, reads and writes by cell, and
    world generation from a seed (through `rand`);
  * `jobs`: ids, items, the clock and the job queue (push, claim, release,
    complete, the urgency-ordered list of open jobs);
  * `path`: walking routes, found by the A* search of the `pathfinding`
    crate;
  * `sim`, `turn` and `invariants`: the colony state, the tick (`SimState::step`),
    its specification phase by phase, and what every tick keeps (positions in
    range, dwarves moving at most one cell, consistent job claims, fresh item ids);
  * `gameplay`, `persistence`, `ui`: stockpiles and recipes, mining and
    marking cells for mining, the save description and its version check, and
    the heads-up figures.
* `app/` is the game around it: the window and input (`macroquad`), the
  floating-point needs of the dwarves (hunger, thirst, tiredness), the camera,
  and saving and loading (`serde_json`, `bincode`).

A dwarf's needs are floating-point numbers, so they live in `app/`: each tick
it tells the library which thresholds they cross (`NeedSignals`) and applies
what the library reports back (`NeedEffects`).
