# cruspy

Shared-memory slab layout and registry, verified with Verus.

A segment is one or more byte slabs that share one allocator. Each slab starts with a
fixed 512-byte header prefix; the primary slab's arena holds two linked catalog chains
(`CTLG` metatypes, `COBJ` objects) whose chunks point at each other.

## Layout

- `src/` — the verified library
  - `codec`, `tags`, `chars`, `text`, `url`, `paths`: byte and text primitives
  - `types/`: wire headers (string, metatype, object) and typed slab objects
  - `catalog/`: the catalog chunk wire format and the metatype / object / type catalogs
  - `slab/`: slab header, arena layout, catalog chains, registration checks, usage stats,
    and `Segment`, the slab set of a segment with every layout check and write
  - `io/`, `backend/`: storage kinds, backend traits, the process-local `Ram` backend
  - `manager/`: locators, the registry's bookkeeping, the manager's segment table (every
    lookup, close and usage row) and errors
  - `diagnostics`: classification of native validation messages
- `app/` — the runtime around it: the talc allocator beside each segment (its claims and
  allocations are `unsafe` calls) and the slab opening that goes through it, report
  formatting (percentages are floating point) and the Python module glue
- `tests/` — executable tests of the library
