# nanoda

A type checker for a dependent type theory with inductive types, quotients, proof
irrelevance, eta and literals for numbers and strings, written and proved in Verus.

- `src/` is the library. Terms, levels and names are stored once (`dag`, `ctx`, `make`) and
  stand for trees (`tree`). What the checker claims about terms are judgements with rules
  (`judge`, `laws`, `stable`): that one reduces to another, that two are equal by
  definition, that one has another for its type. What the strategies for reduction, types
  and equality come to is a function of the term and of an amount of fuel (`steps`).
- `whnf`, `infer`, `defeq`, `strong` and `declar` work on terms; `value`, `vcache`, `eval`,
  `natval`, `force`, `vtype`, `sig` and `relevance` on values of evaluation. Whatever they
  give back is a judgement that holds. They take an amount of fuel and stop with a reason
  (`checker::Stop`) where it runs out. Those on values succeed wherever all the work that they
  may have to do comes to an end within the fuel, in whatever order it is done (`work`).
  `numbers` says which terms are numbers as they stand.
- `bignum`, `hash` and `env` call `num-bigint`, `hashbrown`, `rustc-hash` and `indexmap`.
- `app/` reads configuration files, opens files and runs the checker on threads.
