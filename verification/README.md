# memsol

memsol observes memory pressure and the user's attention on a Hyprland desktop,
as the groundwork for memory policy that protects what the user is working on.
This phase only observes: nothing is reclaimed, frozen or throttled.

The crate `memsol_core` (under `src/`) is verified with Verus:

- `attention` — the attention graph of windows, workspaces and monitors, with every
  derived field (focused / visible / hidden, window counts, active flags) proved to
  stay consistent across every operation.
- `hyprland` — the compositor's event grammar (`name>>data` lines), what each event
  does to the graph, and building the graph from the compositor's lists.
- `telemetry`, `model` — `/proc/meminfo` and pressure-stall text.
- `learning`, `context` — the discrete side of attention learning: when focus really
  moved, and the keys under which transitions and event outcomes are counted.
- `text`, `keyed` — specified string handling and keyed collections used by the rest.

`app/` holds the program around it: reading `/proc`, talking to Hyprland's sockets,
the floating-point statistics of the learners and the pressure classification, and
the `memsol status | attention | observe` commands.
