# queueing-theory

Queueing theory: Kendall's notation, birth-death processes, M/M/1, M/M/c and
M/G/1 queues, priority queues, Jackson networks, Erlang formulas and staffing.

- `src/` is the verified library (Verus): Kendall's notation and its rendering
  ("M/M/1", "M/M/1/10/LIFO"), the state count of a birth-death process, the
  stable ordering of priority classes, the shape of a Jackson network and the
  combination of staffing requirements. Each function carries a contract, and
  the laws that relate them are proof functions.
- `app/` holds the rate formulas, which work in floating point (and solve the
  traffic equations of a network with `nalgebra`), and the serde-enabled copies
  of the notation types. It calls the library for everything above.
- `tests/` runs the library on concrete values.
