# rustgames

The rules of a small collection of browser games, written in Verus and
proved against their contracts: a 3D maze with a chaser, a roguelike
dungeon, a dot-eating maze game, a cube puzzle, an animal-placement puzzle
and an MSX home-computer emulator (Z80, VDP, PSG, PPI, memory slots), plus
the integer rules of two shooters: the earth-defence flash bomb (a charge
clears every enemy, scored by kind) with its wave tally, and the 256-slot
bullet pool of the 3D blaster. It also inspects VRM avatar files (the GLB
container is read here, the JSON text is parsed by `serde_json` and the
summary is taken from the parsed tree) and keeps the object ids of a 3D
scene.

The generators are stated exactly: the maze a seed gives, the dungeon
rooms, the hidden solution, the zone sizes and zones of the animal puzzle,
and where a new floor's enemies stand are spec functions of the seed or
of the generator state passed in.

Layout:

- `src/` — the verified library. Each module states its rules as spec
  functions and proves the executable code against them; properties that
  span several calls are public proof functions (`lemma_*`).
- `tests/` — ordinary Rust tests that run the library on concrete values.
- `app/` — the browser and native glue: `wasm_bindgen` exports, local
  storage, random seeds, frame timers and everything measured in floating
  point (positions, camera, sound levels), which the library does not hold.
