# niri_expose

The decision logic of the exposé views of a scrollable-tiling compositor,
with machine-checked contracts.

- `src/geometry.rs`: points, sizes and rectangles in fixed-point logical
  coordinates, with point containment.
- `src/navigation.rs`: keyboard navigation through the planned grid
  (`neighbor`) and its laws (determinism, Left/Right undo each other, rows).
- `src/expose.rs`: the all-outputs exposé (`AllOutputsExpose`): selection,
  cycling, hit testing, drawing order, opening order, planning, closing and
  handing windows over to the layout, a single-output exposé or the overview.
- `src/layout.rs`: the layout's part in it (`Layout`): the monitors with
  their single-output exposés, toggling, opening, refreshing, navigation,
  transitions and their steps.
- `app/`: the compositor side: floating-point geometry and its transitions,
  the grid planner (`arrange`), the scale-override render element, and the
  conversions between logical geometry and the library's fixed-point values.
