# tank_engine

The discrete core of Tank 3D – Monte Cassino, a Bevy tank game, written in
Verus and proved against its contracts.

* `src/` — the verified library: the lattice hash of the procedural noise,
  collision-layer filtering, RGBA8 texture buffers, the index buffers of
  every procedural mesh (boxes, cylinders, beveled boxes, riveted panels,
  turret, wheels, river, terrain, merged meshes) with their triangle counts,
  mesh topology operations (boundary edges, watertightness, winding,
  re-indexing, vertex adjacency), terrain classes and heightmap addressing,
  and the decisions taken on the player's input and on ground contact.
* `tests/` — tests of the library on concrete values.
* `app/` — the game itself: Bevy plugins and systems, the floating-point
  physics, geometry, noise and rendering, calling the library for the above.
