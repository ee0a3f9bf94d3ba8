# osteak

The Elm architecture for ratatui applications, verified with Verus.

A model implements `Tea`: `update` takes a message and returns a `Cmd`
(an `Action` to perform and a dirty flag), `view` draws the state. The
caller owns the event loop.

- `src/action.rs`, `src/cmd.rs`: actions and commands, their constructors,
  `map` (which keeps the structure of an action and the dirty flag) and the
  flattening of an action into the tasks to spawn.
- `src/task.rs`: tasks, whose futures are opaque and whose ghost labels
  follow them through `map`; only this module pairs a future with a label.
- `src/sub.rs`: subscriptions, eager or lazy, identified by an id.
- `src/runner.rs`: the decisions of an event loop (`after_update`) and the
  set of running subscriptions (`SubscriptionSet::sync`), with the laws of
  syncing: the running ids become exactly the desired ones, stale ones are
  cancelled, new ones start once, and a second sync does nothing.
- `src/tea.rs`: the `Tea` trait.
- `app/`: the optional tokio/crossterm runner, which performs what the
  library decides.
