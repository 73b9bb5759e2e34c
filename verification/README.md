# Eagle kernel, verified

The trusted kernel of a small Martin-Löf type theory (universes, Pi, Sigma,
natural numbers, closed inductive declarations), written in Verus.

Each executable function states its result over a mathematical model:

- `eval::eval_outcome` is big-step evaluation with an explicit fuel budget;
  the evaluator is a heap-stack machine proved to compute it.
- `quote::quote_outcome` reads values back into normal forms; the
  quotation machine is proved to compute it.
- `check::infer_type` / `check::check_type` are the bidirectional typing
  rules with conversion by normalization; `infer`, `check` and their
  variants return exactly what they prescribe.
- `signature::admission` is the admission policy of the persistent
  declaration registry; `Signature::insert` follows it and the registry keeps
  every name fresh.

Laws proved in `src/`: fuel only bounds resources (`law_eval_more_fuel`,
`law_normalize_more_fuel`, `law_infer_more_fuel`, `law_check_more_fuel`),
beta reduction, variable lookup and global unfolding (`law_beta`,
`law_variable_evaluation`, `law_global_evaluation`), universe cumulativity
(from an inferred universe and from a successful check), constructor typing,
strict positivity, and the registry's read-after-write, freshness and
distinct-name properties.  `universes_below_top` and
`declaration_universes_below_top` decide a sufficient condition for the
preconditions of `infer`, `check` and `Signature::insert`.

`readback` proves that normal forms read back unchanged: normalization is
idempotent (`law_normalize_idempotent`), an inferred type is a normal form
(`law_inferred_type_is_normal`), and a term checks against its own inferred
type (`law_checks_against_inferred_type`).

Teardown of deep terms, values, neutral spines and environments is
iterative and verified, `drop` impls included; `teardown_std` holds the only
trusted items, one-call wrappers that give the std calls teardown makes the
`no_unwind` signature Verus requires of `drop`.

Layout: `src/` is the library, `tests/` holds its scenarios.
