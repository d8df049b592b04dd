# helios_exec

The query executor of a small SQL database: it takes a logical plan and what a
query can see of the storage, and gives rows. It is written in Verus; every
function states what it gives, and the proofs are part of the source.

## Layout

- `src/value.rs`, `schema.rs`, `text.rs`, `compare.rs`, `float_bits.rs`: values,
  rows, texts and their orders. Floats are held as their bits.
- `src/logical_plan.rs`, `expr_tree.rs`, `operators.rs`, `evaluator.rs`: plans,
  expressions, and what an expression means on a row.
- `src/parsing.rs`: what is left to the `uuid` and `chrono` crates.
- `src/debug_text.rs`, `tree_text.rs`: values, expressions and plans as messages show
  them.
- `src/acl_views.rs`: the catalog views on roles and grants.
- `src/executor/semantics.rs`: what a plan gives, as a mathematical function; the
  `handle_*` modules and `query.rs` are proved to compute it.
- `src/executor/{filter,project,scan,sort,hash_join,nested_loop,set_ops,...}.rs`:
  the operators.
- `src/executor/{index_lookup,index_agreement,join_agreement,ordered_topk,key_range,knn,
  pushdown,direct_topk,join_planning,decode_hints}.rs`: the shortcuts, and why
  they give the same rows.
- `src/executor/{questions,staging,answers}.rs`: which parts of a plan are asked for
  elsewhere, in which order, and what becomes of the answers.
- `src/executor/{ddl,cluster,explain,explain_text,plan_text}.rs`: statements.
- `app/`: settings, the storage engine's side, and the output formats.

## What is left to the database around it

- `COUNT(*)` is counted here, over any input. Other aggregations and window
  functions come from operators of the database: `src/executor/staging.rs` says what is
  asked for next, and `app/staging.rs` asks for the rows and puts them into the plan,
  below joins, set operations and common table expressions, and in subqueries of filters
  and lists. They are not asked for in the right side of a lateral join, in a recursive
  expression, in a join condition, and in a subquery of a `DISTINCT` list that depends on
  the row: there the executor answers that the operator is not implemented. No subquery
  hides that answer.
- `EXPLAIN` takes its estimates from the planner, which is not part of this crate;
  the index annotations and the text are made here.
- An expression may have columns, constants, parameters, comparisons, `AND`, `OR`,
  `NOT`, `IS NULL`, `BETWEEN`, `IN`, `LIKE`, `CASE`, `||`, array subscripts, signs
  and integer arithmetic. Casts, functions, float arithmetic and vector distances
  fail with `Expression cannot be evaluated on a row`.
- A scalar subquery or `EXISTS` that fails is read as one that finds nothing; only what
  is left to the database is passed on.
- Messages show a float as its bits.
- A constant is looked up in an index on a float column where it is a number; a
  text is compared by a scan.

## Time limits

A relation in `semantics.rs` says whether its rows are handed out under the time limit of
the query. An operator says which limits it is under, and an error of a query that ran
for too long names one of them. When the clock is looked at, and what it shows, is open.

Proof functions whose names begin with `law_` state what holds of the library as
a whole.
