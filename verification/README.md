# perlica_logic

Game-server logic of a factory and inventory simulation, verified with Verus.

- `src/` is the verified library: the factory (regions, nodes, components,
  power grid, crafting machines, trade, recycling, repairs, the tech tree),
  the item bag (weapons, gems, equipment, stackable items), the character
  bag and teams, the scene state, per-player bitsets and the GM request
  types. Every public function states its behaviour in `requires` /
  `ensures`; public `proof fn`s state the laws that relate several
  operations.
- `tests/` runs the library on concrete values.
- `app/` holds what Verus does not check: the serde forms of saved types,
  the error type with its display messages, the JSON side of the GM
  interface, and the computations on floating-point values.

Positions, hit points and other floating-point values are kept in the
library as the bit patterns of their values; `app/` converts them.
