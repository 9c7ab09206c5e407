# caneDNA core, verified

caneDNA explores split-bamboo fly-rod tapers: it loads a library of
attributed taper records, groups and filters them, lays out Morgan Hand Mill
settings per rod section, and models a rod's casting stress, deflection and
vibration.

- `src/` is the verified library (Verus). The taper data itself is floating
  point, which the library does not hold; the library holds the descriptive
  record and every rule that reads it or works on counts and positions:
  source grouping, maker/model keys, geometry and ferrule parsing, the
  sorted filter values, the casting knowledge-base lookup, profile length,
  mill section plans, anvil numbering and bed registration, the explorer's
  selection and filters, and the design server's routing and request rules.
- `app/` is the design-assistant server (JSON-RPC over stdio) together with
  the serialisable records and the floating-point taper engine, which calls
  the library for each of those rules.
- `tests/` exercises the library on concrete values.
