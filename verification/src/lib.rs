use vstd::prelude::*;

pub mod text;
pub mod acl_views;
pub mod compare;
pub mod debug_text;
pub mod evaluator;
pub mod executor;
pub mod expr_tree;
pub mod expression_meaning;
pub mod float_bits;
pub mod logical_plan;
pub mod operators;
pub mod parsing;
pub mod schema;
pub mod tree_text;
pub mod value;

verus! {

} // verus!
