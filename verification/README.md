# fg_editor

The editing logic of a fighting-game character editor, verified with Verus.

`src/` holds the library:

- `names`, `unique`, `keyed`: name order and sorting, fresh names (`base`,
  `base (1)`, ...), and a map from names to values that keeps insertion order.
- `name_index`, `attacks`, `states`, `particles`, `animations`: the name lists
  the editor shows beside the data they name, and adding, deleting and
  renaming in both at once.
- `moves`, `cancels`, `commands`, `character`: cancel sets, the ground kinds
  of airborne moves, and the commands built from a command list when the
  character editor opens, one entry per input.
- `states`, `flags`: what the state editor writes back (a state, its graphic
  and duration, loaded states) and which flag fields it shows.
- `keyframes`: the order of keyframes by frame, and when one may be deleted.
- `hitboxes`, `bullets`, `instance`, `playback`, `editor`: hitbox lists with a
  selection, bullet spawn properties and offsets, instance property kinds,
  state playback, and the stack of editor screens.

`app/` draws the forms with imgui over the library. `tests/` runs the library
on concrete values.
