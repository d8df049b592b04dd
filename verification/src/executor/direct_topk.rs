//! `ORDER BY ... LIMIT` over plain columns of a table, left to the storage.

use crate::evaluator;
use crate::executor::any_operator::AnyOperator;
use crate::executor::handle_rows;
use crate::executor::handle_scan;
use crate::executor::handle_scan::ScanParts;
use crate::executor::knn;
use crate::executor::pushdown;
use crate::executor::query::Executor;
use crate::executor::scan;
use crate::executor::semantics;
use crate::executor::semantics::{Ctes, ScanNode};
use crate::executor::sources;
use crate::executor::sources::Env;
use crate::executor::storage_view;
use crate::logical_plan;
use crate::logical_plan::{ExprModel, LogicalExpr, LogicalPlan, PlanModel};
use crate::schema;
use crate::schema::{Column, ColumnModel, ErrorModel, Schema, Tuple};
use crate::text;
use crate::value::ValueModel;
use std::sync::Arc;
use vstd::prelude::*;

verus! {

/// What the storage is asked for: columns of a table in an order of columns.
#[verifier::ext_equal]
pub struct DirectTopkModel {
    pub table: Seq<char>,
    pub scan_columns: Seq<ColumnModel>,
    pub output_columns: Seq<ColumnModel>,
    pub outputs: Seq<usize>,
    pub sorts: Seq<usize>,
}

/// What the storage is asked for.
pub struct DirectTopkRequest {
    pub table_name: String,
    pub scan_schema: Arc<Schema>,
    pub output_schema: Arc<Schema>,
    pub output_columns: Vec<usize>,
    pub sort_columns: Vec<usize>,
}

impl View for DirectTopkRequest {
    type V = DirectTopkModel;

    open spec fn view(&self) -> DirectTopkModel {
        DirectTopkModel {
            table: self.table_name@,
            scan_columns: self.scan_schema@,
            output_columns: self.output_schema@,
            outputs: self.output_columns@,
            sorts: self.sort_columns@,
        }
    }
}

/// The columns of the table that the first `n` sort keys are, through the output
/// columns.
pub open spec fn sort_positions(
    exprs: Seq<ExprModel>,
    n: nat,
    shown: Seq<ColumnModel>,
    outputs: Seq<usize>,
) -> Option<Seq<usize>>
    decreases n,
{
    if n == 0 || n > exprs.len() {
        Some(Seq::empty())
    } else {
        match (
            sort_positions(exprs, (n - 1) as nat, shown, outputs),
            pushdown::column_position(exprs[n - 1], shown),
        ) {
            (Some(s), Some(i)) => if i < outputs.len() {
                Some(s.push(outputs[i as int]))
            } else {
                None
            },
            _ => None,
        }
    }
}

proof fn lemma_sort_positions_stop(
    exprs: Seq<ExprModel>,
    k: nat,
    n: nat,
    shown: Seq<ColumnModel>,
    outputs: Seq<usize>,
)
    requires
        k <= n <= exprs.len(),
        sort_positions(exprs, k, shown, outputs) is None,
    ensures
        sort_positions(exprs, n, shown, outputs) is None,
    decreases n,
{
    if k < n {
        lemma_sort_positions_stop(exprs, k, (n - 1) as nat, shown, outputs);
    }
}

/// The columns of the table that sort keys are, through the output columns.
pub fn resolve_sort_columns_to_base(
    exprs: &Vec<LogicalExpr>,
    shown: &Schema,
    outputs: &Vec<usize>,
) -> (r: Option<Vec<usize>>)
    ensures
        logical_plan::opt_positions(r) == sort_positions(
            logical_plan::exprs_model(exprs@),
            exprs@.len(),
            shown@,
            outputs@,
        ),
{
    let ghost model = logical_plan::exprs_model(exprs@);
    proof {
        logical_plan::lemma_exprs_model(exprs@);
    }
    let mut out: Vec<usize> = Vec::new();
    let mut i: usize = 0;
    while i < exprs.len()
        invariant
            model == logical_plan::exprs_model(exprs@),
            model.len() == exprs@.len(),
            forall|j: int| 0 <= j < exprs@.len() ==> #[trigger] model[j] == exprs@[j]@,
            i <= exprs@.len(),
            sort_positions(model, i as nat, shown@, outputs@) == Some(out@),
        decreases exprs.len() - i,
    {
        assert(model[i as int] == exprs@[i as int]@);
        let found: Option<usize> = match pushdown::column_expr_index(&exprs[i], shown) {
            Some(at) => {
                if at < outputs.len() {
                    Some(outputs[at])
                } else {
                    None
                }
            },
            None => None,
        };
        match found {
            Some(base) => {
                out.push(base);
            },
            None => {
                proof {
                    lemma_sort_positions_stop(
                        model,
                        (i + 1) as nat,
                        model.len(),
                        shown@,
                        outputs@,
                    );
                }
                return None;
            },
        }
        i += 1;
    }
    Some(out)
}

/// A column as a `SELECT` list shows it.
pub open spec fn shown_column(c: ColumnModel, alias: Option<Seq<char>>) -> ColumnModel {
    ColumnModel {
        name: match alias {
            Some(a) => if a.len() > 0 {
                a
            } else {
                c.name
            },
            None => c.name,
        },
        source_table: None,
        source_table_name: None,
        primary_key: false,
        unique: false,
        ..c
    }
}

/// The columns of a table as a `SELECT` list of plain columns shows them.
pub open spec fn shown_columns(
    cols: Seq<ColumnModel>,
    outputs: Seq<usize>,
    aliases: Seq<Seq<char>>,
) -> Seq<ColumnModel> {
    Seq::new(
        outputs.len(),
        |i: int|
            shown_column(
                cols[outputs[i] as int],
                if i < aliases.len() {
                    Some(aliases[i])
                } else {
                    None
                },
            ),
    )
}

fn show_columns(schema: &Schema, outputs: &Vec<usize>, aliases: &Vec<String>) -> (r: Schema)
    requires
        forall|i: int| 0 <= i < outputs.len() ==> #[trigger] outputs@[i] < schema.columns.len(),
    ensures
        r@ == shown_columns(schema@, outputs@, schema::texts(aliases@)),
{
    let mut columns: Vec<Column> = Vec::new();
    let ghost names = schema::texts(aliases@);
    let mut i: usize = 0;
    while i < outputs.len()
        invariant
            names == schema::texts(aliases@),
            forall|j: int|
                0 <= j < outputs.len() ==> #[trigger] outputs@[j] < schema.columns.len(),
            i <= outputs@.len(),
            columns@.len() == i,
            forall|j: int|
                0 <= j < i ==> (#[trigger] columns@[j])@ == shown_columns(
                    schema@,
                    outputs@,
                    names,
                )[j],
        decreases outputs.len() - i,
    {
        let at: usize = outputs[i];
        assert(outputs@[i as int] < schema.columns.len());
        assert(schema@[at as int] == schema.columns@[at as int]@);
        let mut c: Column = schema.columns[at].clone();
        if i < aliases.len() {
            assert(names[i as int] == aliases@[i as int]@);
            if text::chars_of(aliases[i].as_str()).len() > 0 {
                c.name = aliases[i].clone();
            }
        }
        c.source_table = None;
        c.source_table_name = None;
        c.primary_key = false;
        c.unique = false;
        columns.push(c);
        i += 1;
    }
    let r: Schema = Schema { columns };
    assert(r@ =~= shown_columns(schema@, outputs@, schema::texts(aliases@)));
    r
}

/// Whether positions are those of columns.
pub open spec fn in_range(s: Seq<usize>, n: nat) -> bool {
    forall|i: int| 0 <= i < s.len() ==> #[trigger] s[i] < n
}

fn are_in_range(s: &Vec<usize>, n: usize) -> (r: bool)
    ensures
        r == in_range(s@, n as nat),
{
    let mut i: usize = 0;
    while i < s.len()
        invariant
            i <= s@.len(),
            forall|j: int| 0 <= j < i ==> #[trigger] s@[j] < n,
        decreases s.len() - i,
    {
        if s[i] >= n {
            return false;
        }
        i += 1;
    }
    true
}

/// What the storage is asked for, given the columns it shows.
pub open spec fn direct_request(
    n: ScanNode,
    shown: Seq<ColumnModel>,
    outputs: Seq<usize>,
    sort_exprs: Seq<ExprModel>,
) -> Option<DirectTopkModel> {
    match sort_positions(sort_exprs, sort_exprs.len(), shown, outputs) {
        Some(sorts) => Some(
            DirectTopkModel {
                table: n.table,
                scan_columns: knn::scan_columns(n),
                output_columns: shown,
                outputs,
                sorts,
            },
        ),
        None => None,
    }
}

/// What the storage is asked for by a sort over plain columns of a stored table.
pub open spec fn direct_topk(
    input: PlanModel,
    sort_exprs: Seq<ExprModel>,
    env: Env,
    ctes: Ctes,
) -> Option<DirectTopkModel> {
    match semantics::scan_below(input) {
        None => None,
        Some(n) => if !knn::plain_table(env, ctes(n.table), n.table, n.as_of) {
            None
        } else {
            let cols = knn::scan_columns(n);
            match input {
                PlanModel::Project {
                    input: inner,
                    exprs,
                    aliases,
                    distinct,
                    distinct_on,
                    source_alias,
                } => if distinct || distinct_on is Some {
                    None
                } else {
                    match pushdown::group_positions(exprs, exprs.len(), cols) {
                        None => None,
                        Some(outputs) => direct_request(
                            n,
                            shown_columns(cols, outputs, aliases),
                            outputs,
                            sort_exprs,
                        ),
                    }
                },
                _ => {
                    let outputs = match n.projection {
                        Some(p) => p,
                        None => pushdown::up_to(cols.len()),
                    };
                    if in_range(outputs, cols.len()) {
                        direct_request(n, scan::kept_columns(outputs, cols), outputs, sort_exprs)
                    } else {
                        None
                    }
                },
            }
        },
    }
}

/// What the storage is asked for by a limit over a sort of plain columns.
pub open spec fn storage_topk(input: PlanModel, limit: usize, env: Env, ctes: Ctes) -> Option<
    DirectTopkModel,
> {
    match input {
        PlanModel::Sort { input: below, exprs, asc } => if limit == usize::MAX
            || storage_view::reads_slowly(env.transaction) || exprs.len() == 0 || exprs.len()
            != asc.len() {
            None
        } else {
            match direct_topk(*below, exprs, env, ctes) {
                Some(d) => if storage_view::reads_table_slowly(env.transaction, d.table) {
                    None
                } else {
                    Some(d)
                },
                None => None,
            }
        },
        _ => None,
    }
}

proof fn lemma_group_positions_in_range(s: Seq<ExprModel>, n: nat, cols: Seq<ColumnModel>)
    requires
        n <= s.len(),
        cols.len() <= usize::MAX,
    ensures
        pushdown::group_positions(s, n, cols) matches Some(p) ==> in_range(p, cols.len()),
    decreases n,
{
    if n > 0 {
        lemma_group_positions_in_range(s, (n - 1) as nat, cols);
        if let ExprModel::Column { table, name } = s[n - 1] {
            schema::lemma_qualified_index_in_range(cols, table, name);
        }
    }
}

impl<'a> Executor<'a> {
    fn finish_direct_request(
        &self,
        n: &ScanParts<'_>,
        scan_schema: Arc<Schema>,
        shown: Schema,
        outputs: Vec<usize>,
        sort_exprs: &Vec<LogicalExpr>,
    ) -> (r: Option<DirectTopkRequest>)
        requires
            scan_schema@ == knn::scan_columns(n@),
        ensures
            match r {
                Some(d) => direct_request(
                    n@,
                    shown@,
                    outputs@,
                    logical_plan::exprs_model(sort_exprs@),
                ) == Some(d@),
                None => direct_request(
                    n@,
                    shown@,
                    outputs@,
                    logical_plan::exprs_model(sort_exprs@),
                ) is None,
            },
    {
        proof {
            logical_plan::lemma_exprs_model(sort_exprs@);
        }
        match resolve_sort_columns_to_base(sort_exprs, &shown, &outputs) {
            Some(sort_columns) => Some(
                DirectTopkRequest {
                    table_name: n.table.clone(),
                    scan_schema,
                    output_schema: Arc::new(shown),
                    output_columns: outputs,
                    sort_columns,
                },
            ),
            None => None,
        }
    }

    /// What the storage is asked for by a sort over plain columns of a stored
    /// table.
    pub fn direct_topk_project_spec(&self, input: &LogicalPlan, sort_exprs: &Vec<LogicalExpr>) -> (r:
        Option<DirectTopkRequest>)
        ensures
            match r {
                Some(d) => direct_topk(
                    input@,
                    logical_plan::exprs_model(sort_exprs@),
                    self.env(),
                    self.ctes(),
                ) == Some(d@),
                None => direct_topk(
                    input@,
                    logical_plan::exprs_model(sort_exprs@),
                    self.env(),
                    self.ctes(),
                ) is None,
            },
    {
        let n: ScanParts<'_> = match handle_scan::scan_parts_below(input) {
            Some(n) => n,
            None => {
                return None;
            },
        };
        if !self.is_plain_table(&n) {
            return None;
        }
        let source: &str = sources::pick_source(n.alias, n.table.as_str());
        let scan_schema: Arc<Schema> = Arc::new(
            sources::schema_with_source(n.schema, source, n.table.as_str()),
        );
        let width: usize = scan_schema.columns.len();
        assert(scan_schema@.len() == width);
        match input {
            LogicalPlan::Project { exprs, aliases, distinct, distinct_on, .. } => {
                if *distinct || distinct_on.is_some() {
                    return None;
                }
                proof {
                    logical_plan::lemma_exprs_model(exprs@);
                    lemma_group_positions_in_range(
                        logical_plan::exprs_model(exprs@),
                        exprs@.len(),
                        scan_schema@,
                    );
                }
                let outputs: Vec<usize> = match pushdown::collect_group_positions(
                    exprs,
                    &scan_schema,
                ) {
                    Some(o) => o,
                    None => {
                        return None;
                    },
                };
                assert(in_range(outputs@, scan_schema@.len()));
                let shown: Schema = show_columns(&scan_schema, &outputs, aliases);
                self.finish_direct_request(&n, scan_schema, shown, outputs, sort_exprs)
            },
            _ => {
                let outputs: Vec<usize> = match n.projection {
                    Some(p) => pushdown::clone_indices(p),
                    None => pushdown::list_up_to(width),
                };
                if !are_in_range(&outputs, width) {
                    return None;
                }
                let shown: Schema = Schema {
                    columns: scan::keep_columns(&outputs, &scan_schema),
                };
                self.finish_direct_request(&n, scan_schema, shown, outputs, sort_exprs)
            },
        }
    }

    /// What the storage is asked for by a limit over a sort of plain columns.
    pub fn try_storage_direct_topk(&self, input: &LogicalPlan, limit: usize) -> (r: Option<
        DirectTopkRequest,
    >)
        ensures
            match r {
                Some(d) => storage_topk(input@, limit, self.env(), self.ctes()) == Some(d@),
                None => storage_topk(input@, limit, self.env(), self.ctes()) is None,
            },
    {
        match input {
            LogicalPlan::Sort { input: below, exprs, asc } => {
                proof {
                    logical_plan::lemma_exprs_model(exprs@);
                }
                if limit == usize::MAX || storage_view::txn_forces_slow_reads(self.transaction())
                    || exprs.len() == 0 || exprs.len() != asc.len() {
                    return None;
                }
                let d: DirectTopkRequest = match self.direct_topk_project_spec(below, exprs) {
                    Some(d) => d,
                    None => {
                        return None;
                    },
                };
                if storage_view::txn_forces_slow_reads_for_table(
                    self.transaction(),
                    d.table_name.as_str(),
                ) {
                    None
                } else {
                    Some(d)
                }
            },
            _ => None,
        }
    }

    /// The rows that the storage gave, under the limit of the query.
    pub fn storage_topk_operator(
        &self,
        d: &DirectTopkRequest,
        rows: Vec<Tuple>,
        limit: usize,
        offset: usize,
    ) -> (r: AnyOperator)
        ensures
            r.gives(
                semantics::limited(
                    semantics::at_hand(d@.output_columns, schema::rows_model(rows@)),
                    limit,
                    offset,
                ),
                None,
            ),
    {
        let op: AnyOperator = handle_rows::rows_at_hand(d.output_schema.clone(), rows);
        handle_rows::limit_operator(op, limit, offset)
    }
}

/// The output row of a pushed-down sort.
pub open spec fn output_row(row: Seq<ValueModel>, outputs: Seq<usize>) -> Seq<ValueModel> {
    Seq::new(outputs.len(), |i: int| row[outputs[i] as int])
}

proof fn lemma_sort_positions(
    exprs: Seq<ExprModel>,
    n: nat,
    shown: Seq<ColumnModel>,
    outputs: Seq<usize>,
    i: int,
)
    requires
        0 <= i < n <= exprs.len(),
        sort_positions(exprs, n, shown, outputs) is Some,
    ensures
        ({
            let sorts = sort_positions(exprs, n, shown, outputs)->Some_0;
            let at = pushdown::column_position(exprs[i], shown);
            &&& sorts.len() == n
            &&& at is Some
            &&& at->Some_0 < outputs.len()
            &&& sorts[i] == outputs[at->Some_0 as int]
        }),
    decreases n,
{
    if n > 1 {
        lemma_sort_positions(
            exprs,
            (n - 1) as nat,
            shown,
            outputs,
            if i < n - 1 {
                i
            } else {
                0
            },
        );
    } else {
        assert(sort_positions(exprs, 0, shown, outputs) == Some(Seq::<usize>::empty()));
    }
}

/// A sort that is pushed down to the storage reads, from a stored row, the values that the
/// sort expressions have on the output row: the rows come in the same order.
pub proof fn law_a_pushed_down_sort_reads_the_sort_keys(
    input: PlanModel,
    exprs: Seq<ExprModel>,
    env: Env,
    ctes: Ctes,
    params: Seq<ValueModel>,
    row: Seq<ValueModel>,
    i: int,
)
    requires
        direct_topk(input, exprs, env, ctes) is Some,
        ({
            let d = direct_topk(input, exprs, env, ctes)->Some_0;
            &&& 0 <= i < exprs.len()
            &&& exprs[i] is Column
            &&& schema::qualified_index(
                d.output_columns,
                exprs[i]->Column_table,
                exprs[i]->Column_name,
            ) is Some
        }),
    ensures
        ({
            let d = direct_topk(input, exprs, env, ctes)->Some_0;
            evaluator::eval(
                exprs[i],
                d.output_columns,
                params,
                output_row(row, d.outputs),
            ) == Ok::<ValueModel, ErrorModel>(row[d.sorts[i] as int])
        }),
{
    let d = direct_topk(input, exprs, env, ctes)->Some_0;
    lemma_sort_positions(exprs, exprs.len(), d.output_columns, d.outputs, i);
}

} // verus!
