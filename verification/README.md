# matrix_game

The rules of a robot strategy game as a verified library: the map and its file
format, the arena of objects and its logic walk, buildings, cannons and scenery,
ray traces, and the plans that the renderer draws by.

- `src/` is the library. Every function has a contract that Verus proves, but for
  the three private functions of `map_group` that call the `image` crate: their
  contracts are believed.
  Functions named `law_...` state what holds of several functions together.
- `app/` computes with real numbers and talks to the graphics card.
- `tests/` runs the library on concrete values.

| Modules | Subject |
| --- | --- |
| `arena`, `map_static`, `search` | objects, handles, the logic walk, searches and damage |
| `object`, `object_building`, `object_cannon`, `object_robot`, `weapon_matrix`, `anim` | the classes of objects |
| `game_object`, `cannon_turn` | all classes in one arena, and the order of a cannon's turn |
| `cmap`, `map`, `map_prepare`, `placements`, `properties` | the map and its file |
| `map_group`, `terrain_fill`, `draw_plan`, `sky`, `mesh_plan` | what is drawn, and in which order |
| `map_trace` | rays over the terrain and through the objects |
| `session`, `side`, `sound`, `common` | the running game |
| `bytes`, `text`, `float_bits`, `grid` | data formats |

Real numbers cross into the library as the bit patterns of single-precision
numbers. The library compares them and never computes with them.
