# room_mvp

A terminal layout engine and runtime coordinator, verified with Verus.

- `src/` is the verified library: the grid solver (`layout::grid`), the zone
  registry with content digests (`registry`), the ANSI frame renderer (`render`),
  cursor sequences (`cursor`), the token router (`tokens`), runtime metrics
  (`metrics`), and the runtime's decisions (`runtime`): the plugin context, the
  cursor tracker, focus, the bootstrap audit buffer, the runtime state machine
  (`runtime::coordinator`), screen order and navigation hotkeys, the default
  bundle's input line and status bar, the lifecycle logger's filter, and the socket
  protocol's key parsing.
- `app/` is the runtime around it: plugins, the type-keyed shared state, log
  sinks, screens, and the terminal and socket drivers. It performs the I/O and calls
  the plugins; every state change goes through the library.
- `tests/` exercises the library on concrete values.

Collections: the registry keeps its zones in vstd's `StringHashMap`, but the set of
dirty zones and the grid's placed areas are vectors (without duplicates, in the
order zones became dirty or were placed). Both are walked in full (`take_dirty`
hands every dirty zone out; `place` scans every area for an overlap and `solve`
yields every zone), and vstd's hash maps and sets offer lookups but no walk; a
vector also fixes the order the contracts state.

Left out of `src/`:
- the type-keyed shared state and the per-screen state built on it (`SharedState`,
  `ScreenState`, `ensure_*`): they hold `dyn Any` values found by `TypeId` behind
  locks, which Verus cannot represent; they live in `app/`;
- `ZoneTokenRouter::route` and the boxed zone rendering (`BoxConfig`,
  `render_zone_with_box`): they call the `rsb` tokenizer and the `boxy` renderer,
  neither of which is available here; `route_tokens`, which routes tokens already
  read, is in `src/`;
- the log sinks, the terminal and socket drivers and the plugin calls, which are
  I/O or user code; `app/` performs them in the order the library's step functions
  give (`dispatch_next`, `bootstrap_steps`, `error_report_steps`,
  `error_outcome_steps`, `dispatch_open_steps`, `dispatch_close_steps`,
  `activate_steps`, `finish_steps`).
