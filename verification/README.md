# sasquatch_engine

A rules engine for the card game *Sell Me a Sasquatch*, written in Verus:
the turn-phase state machine, every rule of the buyer and two-player
variants (the end of a turn step by step: nasty and creature trade-ins and
the refill, whose reshuffle order is left to the random source), the
legal-action enumeration and its ceiling, and per-seat statistics, each with
a contract that Verus proves.

## Layout

- `src/` — the verified library.
  - `card`, `deck`, `deal`, `player`, `phase`, `action`, `events`, `stats`:
    the data of a game, each with a view.
  - `rules`: the rules as spec functions over `GameView` (what each action
    refuses, what it does, what a turn's end does).
  - `turn_end`: the end of a turn as spec functions, one set at a time.
  - `game`, `turn`, `trade`, `access`: setting a game up, applying actions,
    the end-of-turn trade-ins, refill and win check, reading and live
    tracking; their contracts are stated over `rules`.
  - `legal`, `bounds`: the legal-action enumeration and the ceiling on its
    length.
  - `places`, `laws`, `menus`, `counting`: properties of the whole engine —
    every card stays in exactly one place, the invariants a fresh game has
    are kept by every accepted action, every offered action is accepted,
    some action is always offered, and no menu outgrows the ceiling for any
    removal or steal limit, wherever the ceiling's saturating binomials are
    exact (`counting` bounds the class multisets a steal can pick).
  - `rng`: the seeded random source, the one place the library calls
    `rand` and `rand_chacha`.
- `tests/` — tests on concrete games.
- `app/` — what stays outside the verified library: the TOML deck loader,
  the observation encoder (floating point), the per-seat event memory and
  the Python bindings.
