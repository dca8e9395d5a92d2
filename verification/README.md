# compiler

The decision logic of a compiler driver, verified with Verus: pass and pipeline
registries, pass runs with diagnostics and policy decisions, compile requests with
constraints and objectives, target capability checks, control-flow graphs and dominance,
dialect-conversion legality and type conversion, cast reconciliation, custom kernel
selection and checking of `kernel.call`, and the search and evaluation of conversion routes.

- `src/` is the verified library. Every public function states its result in `ensures`;
  the laws that relate several functions are proof functions in the `laws` modules (and
  beside the registries they speak of).
- `tests/` runs the library on concrete values.
- `app/` is the part that works on `ir` modules and `kernel` descriptors: it reads
  operations, blocks and values, numbers them for the library, applies rewrites, and
  computes floating-point route scores. It hands every decision to the library.

Numbers that are doubles in the interface (costs, weights, estimates, scores) are held by
the library as the bits of the double; comparisons between doubles are made by the caller
and handed in as `NumericOrder`.
