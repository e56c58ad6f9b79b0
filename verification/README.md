# combat_eval

An offline harness for evaluating combat squads in Screeps: it generates engagements, decides how each
run goes on, and judges what came of it. The library is written in Verus. Every function of `src/`
carries a contract that Verus proves.

## How it is laid out

- `src/` is the library: the rules, the state machines and the texts. It holds no simulator. A run
  that needs the combat engine or a squad brain is a state machine: it hands out a question, and takes
  the answer through a method that returns the next question, until it is finished.
- `tests/` runs the library, with small stand-ins where a run asks for a kernel.
- `app/` is ordinary Rust around the library: the drivers that put each question to the engine, the
  brains and the planner, the files, and whatever is computed in floating point.

## The modules

| What | Where |
| --- | --- |
| Positions, the world, scenarios | `position`, `world`, `scenario`, `lists` |
| Numbers and texts | `rng`, `text`, `json` |
| Terrain | `terrain_import`, `caves` |
| Generated engagements | `generate`, `stronghold`, `raid`, `roster`, `corpus` |
| When a run stops, and what it is worth | `evaluate`, `validate`, `suite`, `profile`, `fielding` |
| Placing and scripted fights | `staging`, `siege`, `tower_fire`, `lanchester`, `mover_adjudication` |
| The colony and its squads | `colony`, `forming`, `churn`, `spatial`, `extended`, `travel`, `lease`, `lifecycle`, `defended` |
| Objectives and flows | `objective_queue`, `march`, `v1_flow`, `offense_flow`, `declaim_flow`, `auction`, `merge` |
| The sweep over the sizing's knobs | `param_sweep` |
| Replays and pages | `visualize`, `player`, `replays`, `report`, `corpus_index` |
| Captured bases | `foreman_capture` |

## Floating point

The library computes with integers. A floating-point number that it only carries or compares comes in
as its bit pattern or as an integer that orders as the number does, and a rate comes in as the text
that a report shows.

## What is taken on trust

Four items are believed without proof: the range between two positions, the name of a position's room
and the room of a name, all from `screeps-game-api`, and `String::push` of the standard library. Each says above it what
is claimed.
