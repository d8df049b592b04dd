//! Query execution: operators and the planning that picks them.

use vstd::prelude::*;

pub mod answers;
pub mod any_operator;
pub mod cluster;
pub mod ddl;
pub mod decode_hints;
pub mod direct_topk;
pub mod explain;
pub mod explain_text;
pub mod filling;
pub mod filter;
pub mod first_rows;
pub mod handle_aggregate;
pub mod handle_count;
pub mod handle_join;
pub mod handle_rows;
pub mod handle_scan;
pub mod handle_statement;
pub mod handle_topk;
pub mod handle_with;
pub mod hash_join;
pub mod hash_rows;
pub mod index_agreement;
pub mod index_lookup;
pub mod join_agreement;
pub mod join_build;
pub mod join_keys;
pub mod join_meaning;
pub mod join_pair;
pub mod join_planning;
pub mod join_table;
pub mod key_range;
pub mod knn;
pub mod materialize;
pub mod lookup_meaning;
pub mod nested_loop;
pub mod operator;
pub mod ordered_topk;
pub mod plan_meaning;
pub mod plan_text;
pub mod project;
pub mod pushdown;
pub mod query;
pub mod questions;
pub mod recursion;
pub mod scan;
pub mod semantics;
pub mod set_ops;
pub mod shown_join;
pub mod sort;
pub mod staging;
pub mod sources;
pub mod storage_view;
pub mod subquery;
pub mod subquery_meaning;
pub mod table_function;
pub mod window;

verus! {

} // verus!
