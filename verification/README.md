# ractor_supervisor

Supervisors for actors of the `ractor` framework, verified with Verus.

A supervisor starts its children again when they go, and gives up (it has a meltdown) when it has to
do so too often within a short time. `Supervisor` has a fixed list of children and a strategy:
`OneForOne`, `OneForAll` or `RestForOne`. `DynamicSupervisor` has children that come and go, up to an
optional limit.

## Layout

- `src/` decides. A handler changes the state and says what is to be done; `resume` takes the outcome
  and says what is next. Contracts state what each handler does, and the modules ending in `_laws`
  state what holds across handlers.
  - `restart`: policies, the log of restarts, failure counts, backoff
  - `plan`, `supervisor`: the supervisor of a fixed list
  - `dynamic`: the supervisor of children that come and go
  - `shutdown`: how one child is brought to an end
  - `actor`, `child`, `child_map`, `time`: the values that these work on
- `app/` carries out: actors that spawn, stop and kill children, wait, and send messages.
- `tests/` runs both supervisors in simulated time.
