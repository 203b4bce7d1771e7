# bevy_enhanced_input (verified core)

The decisions of an observer-based input manager for Bevy, written in Verus
and proved against their contracts:

- `src/context.rs`: context activity and priority, the gamepad of a context.
- `src/registry.rs`: registration of input contexts per schedule.
- `src/instances.rs`: the context instances of a schedule in evaluation order
  (higher priority first, most recently added first among equals).
- `src/evaluation.rs`: one update of a context's actions: action order by
  modifier keys, where an action's state comes from, how binding states
  combine, which inputs are consumed, mock spans, bindings to release.
- `src/state.rs`: activation of contexts from application states.
- `src/external.rs`: the outside types the library carries or calls.

`app/` holds the ECS side: components with their derives, the plugin, the
observers and systems that read the world for these decisions.
