# fourmis

The decision logic of an ant-colony tour simulation, verified with Verus.
Ants start on random food sites, repeatedly draw an unvisited site (nearer
sites weigh more), walk there, and when every site is visited hand their
closed tour over; of the tours on the board only the shortest are kept.

- `src/geometry.rs`: points, squared distances, segments of a closed tour.
- `src/food.rs`: food sites, the initial board, lookup of the site at a place.
- `src/ant.rs`: ant state and every per-ant decision: spawning, the unvisited
  sites, the draw weights, the target, moving, ending and restarting a tour,
  the guide lines to draw.
- `src/chemin.rs`: keeping the shortest tours and their history.
- `src/random.rs`: the one call into `rand`.
- `app/`: the bevy program that renders the board and runs the systems; the
  weighted draw (`random_choice`, on `f32` weights) and all floating-point
  lengths and colours stay there.
