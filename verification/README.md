# screeps_ai

A Screeps colony bot whose decision logic is verified with Verus.

- `src/` is the verified library: recyclable ids (`common::id_manager`),
  memory keys (`common::id_key`), the task store (`task`), room and spawn
  actors (`actor`), planning (`planner`) and one tick of the bot
  (`game_loop`). The calls into the Screeps game API that the logic makes are
  in `game`, each with the contract that the library relies on.
- `app/` is the WebAssembly entry point that the server calls each tick: it
  reads the raw memory (JSON) and the game state, hands them to the library,
  and spawns the creeps that the library orders.
- `tests/` runs the library on concrete values.
