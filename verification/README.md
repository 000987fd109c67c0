# openconstruct

A plug-in framework for agent systems, written in Verus.

- `src/` is the verified library:
  - `keyed.rs`: an insertion-ordered map from string keys to values, the
    collection behind everything else;
  - `context.rs`: the shared context, a store of typed values under string
    keys (the types it can hold form a closed set, `ContextValue`);
  - `event_bus.rs`: handler groups keyed by event type;
  - `module.rs`, `registry.rs`: the module trait and the registry that drives
    the lifecycle of modules;
  - `lifecycle.rs`: module states and health results;
  - `math.rs`: the math engine (operation counter, matrix transpose and
    element-wise addition over any entry type) and the math module.
- `app/` is the runtime program, plus what works on floating-point values:
  the `f64` arithmetic of the math engine, the simulated sensors and the
  aggregating agent.
- `tests/` exercises the library.
