# swarm_lib

The rules and bots of a grid game in which teams of bots gather crumbs, truffles and metal,
build more bots and fight, written in Verus: every function of the library carries a contract
that Verus proves.

## Layout

- `src/` — the verified library.
  - `types`, `gridworld`, `known_map`, `bot`, `action_defs`: positions, directions, energy,
    the grid with A* path finding and nearby-cell search, what bots know, bot state, actions.
  - `game`, `world`, `observe`, `server_radar`, `levels`, `replay`, `action_queue`: the
    server's rules — checking and applying actions, energy, pickups, winning, what each bot
    sees, the levels, putting a recorded tick back, and the first queued action system.
  - `econ_bot`, `crumb_follower`, `interrupt_bot`, `simple_bot`, `manual`: the bots.
  - `bot_logger`, `radar`, `text`, `tiles`: log entries and their text, the radar picture,
    and which map tile shows a cell.
  - `protocol`, `harness`: message framing, the bot harness's decisions, connection retries.
  - `rng`: the calls into `rand`, each with the contract it is trusted for.
- `tests/` — tests of the library.
- `app/` — the program: a local game without graphics (`sim`) and bots for a game server
  reached over TCP (`bots`).
