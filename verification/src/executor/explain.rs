//! `EXPLAIN`: which nodes of a plan an index serves, and the text of the answer.

use crate::executor::index_lookup;
use crate::executor::index_lookup::{IndexRangeSpec, RangeModel};
use crate::executor::operator::Relation;
use crate::executor::ordered_topk;
use crate::executor::query::Executor;
use crate::executor::semantics;
use crate::executor::semantics::Ctes;
use crate::executor::sources;
use crate::executor::sources::{CteData, Env};
use crate::executor::storage_view;
use crate::executor::storage_view::{IndexEntry, StorageView};
use crate::logical_plan;
use crate::logical_plan::{ExprModel, LogicalExpr, LogicalPlan, PlanModel};
use crate::schema::{ColumnModel, ErrorModel, Schema};
use crate::text;
use vstd::prelude::*;
use vstd::string::*;

verus! {

/// How an index serves a node of a plan.
pub enum NodeAccess {
    /// The rows with one value.
    Point { index: String, table: String },
    /// The rows with one of some values.
    InList { index: String, table: String, values: usize },
    /// The rows in a range.
    Range { range: IndexRangeSpec, table: String },
    /// The rows in the order of the index.
    Ordered { index: String, table: String, column: String },
}

#[verifier::ext_equal]
pub enum AccessModel {
    Point { index: Seq<char>, table: Seq<char> },
    InList { index: Seq<char>, table: Seq<char>, values: usize },
    Range { range: RangeModel, table: Seq<char> },
    Ordered { index: Seq<char>, table: Seq<char>, column: Seq<char> },
}

impl View for NodeAccess {
    type V = AccessModel;

    open spec fn view(&self) -> AccessModel {
        match *self {
            NodeAccess::Point { index, table } => AccessModel::Point {
                index: index@,
                table: table@,
            },
            NodeAccess::InList { index, table, values } => AccessModel::InList {
                index: index@,
                table: table@,
                values,
            },
            NodeAccess::Range { range, table } => AccessModel::Range {
                range: range@,
                table: table@,
            },
            NodeAccess::Ordered { index, table, column } => AccessModel::Ordered {
                index: index@,
                table: table@,
                column: column@,
            },
        }
    }
}

pub open spec fn opt_access(a: Option<NodeAccess>) -> Option<AccessModel> {
    match a {
        Some(x) => Some(x@),
        None => None,
    }
}

/// What the storage tells of an `IN` list: the index that has its values, and how
/// many they are.
pub struct InListProbe {
    pub index: String,
    pub values: usize,
}

pub open spec fn probe_model(p: Option<InListProbe>) -> Option<(Seq<char>, usize)> {
    match p {
        Some(p) => Some((p.index@, p.values)),
        None => None,
    }
}

/// A node of the plan that is shown: its kind, what the storage tells of an `IN` list
/// in its predicate, how an index serves it, and its inputs.
pub struct PlanNode {
    pub node_type: String,
    pub in_list: Option<InListProbe>,
    pub access: Option<NodeAccess>,
    pub children: Vec<PlanNode>,
}

pub struct NodeModel {
    pub node_type: Seq<char>,
    pub in_list: Option<(Seq<char>, usize)>,
    pub access: Option<AccessModel>,
    pub children: Seq<NodeModel>,
}

pub open spec fn node_model(n: PlanNode) -> NodeModel
    decreases n,
{
    NodeModel {
        node_type: n.node_type@,
        in_list: probe_model(n.in_list),
        access: opt_access(n.access),
        children: nodes_model(n.children@),
    }
}

pub open spec fn nodes_model(s: Seq<PlanNode>) -> Seq<NodeModel>
    decreases s,
{
    if s.len() == 0 {
        Seq::empty()
    } else {
        nodes_model(s.drop_last()).push(node_model(s.last()))
    }
}

impl View for PlanNode {
    type V = NodeModel;

    open spec fn view(&self) -> NodeModel {
        node_model(*self)
    }
}

proof fn lemma_nodes_model(s: Seq<PlanNode>)
    ensures
        nodes_model(s).len() == s.len(),
        forall|i: int| 0 <= i < s.len() ==> #[trigger] nodes_model(s)[i] == node_model(s[i]),
    decreases s.len(),
{
    if s.len() > 0 {
        lemma_nodes_model(s.drop_last());
        assert forall|i: int| 0 <= i < s.len() implies #[trigger] nodes_model(s)[i] == node_model(
            s[i],
        ) by {
            if i < s.len() - 1 {
                assert(nodes_model(s)[i] == nodes_model(s.drop_last())[i]);
                assert(s.drop_last()[i] == s[i]);
            }
        }
    }
}

/// The kind that a node has once an index serves it.
pub open spec fn served_kind(a: AccessModel) -> Seq<char> {
    match a {
        AccessModel::Point { .. } => "IndexPointLookup"@,
        AccessModel::InList { .. } => "IndexInListProbe"@,
        AccessModel::Range { .. } => "IndexRangeScan"@,
        AccessModel::Ordered { .. } => "IndexOrderedScan"@,
    }
}

pub open spec fn served(n: NodeModel, a: AccessModel) -> NodeModel {
    NodeModel { node_type: served_kind(a), access: Some(a), ..n }
}

/// A tree in which the first node of a kind is served by an index.
pub open spec fn first_served(n: NodeModel, kind: Seq<char>, a: AccessModel) -> Option<NodeModel>
    decreases n, 0nat,
{
    if n.node_type == kind {
        Some(served(n, a))
    } else {
        match child_served(n.children, 0, kind, a) {
            Some(c) => Some(NodeModel { children: c, ..n }),
            None => None,
        }
    }
}

pub open spec fn child_served(s: Seq<NodeModel>, from: nat, kind: Seq<char>, a: AccessModel) -> Option<
    Seq<NodeModel>,
>
    decreases s, s.len() - from,
{
    if from >= s.len() {
        None
    } else {
        match first_served(s[from as int], kind, a) {
            Some(c) => Some(s.update(from as int, c)),
            None => child_served(s, from + 1, kind, a),
        }
    }
}

fn mark_served(n: &mut PlanNode, a: NodeAccess)
    ensures
        final(n)@ == served(old(n)@, a@),
{
    n.node_type = match &a {
        NodeAccess::Point { .. } => "IndexPointLookup".to_owned(),
        NodeAccess::InList { .. } => "IndexInListProbe".to_owned(),
        NodeAccess::Range { .. } => "IndexRangeScan".to_owned(),
        NodeAccess::Ordered { .. } => "IndexOrderedScan".to_owned(),
    };
    n.access = Some(a);
}

fn has_node(n: &PlanNode, kind: &str, Ghost(a): Ghost<AccessModel>) -> (r: bool)
    ensures
        r == (first_served(n@, kind@, a) is Some),
    decreases n,
{
    if text::same_text(n.node_type.as_str(), kind) {
        return true;
    }
    proof {
        lemma_nodes_model(n.children@);
    }
    let ghost model = nodes_model(n.children@);
    let mut i: usize = 0;
    while i < n.children.len()
        invariant
            n@.children == model,
            n@.node_type != kind@,
            model.len() == n.children@.len(),
            forall|j: int| 0 <= j < model.len() ==> #[trigger] model[j] == node_model(n.children@[j]),
            i <= n.children@.len(),
            child_served(model, 0, kind@, a) == child_served(model, i as nat, kind@, a),
        decreases n.children.len() - i,
    {
        assert(model[i as int] == n.children@[i as int]@);
        if has_node(&n.children[i], kind, Ghost(a)) {
            return true;
        }
        i += 1;
    }
    false
}

/// Marks the first node of a kind as served by an index; tells whether there is
/// one.
pub fn mark_first_node(n: &mut PlanNode, kind: &str, a: NodeAccess) -> (r: bool)
    ensures
        match first_served(old(n)@, kind@, a@) {
            Some(m) => r && final(n)@ == m,
            None => !r && final(n)@ == old(n)@,
        },
    decreases *old(n),
{
    let ghost was = *n;
    let ghost model = a@;
    if text::same_text(n.node_type.as_str(), kind) {
        mark_served(n, a);
        return true;
    }
    proof {
        lemma_nodes_model(n.children@);
    }
    let ghost list = nodes_model(n.children@);
    let mut i: usize = 0;
    while i < n.children.len()
        invariant
            *n == was,
            was@.children == list,
            was@.node_type != kind@,
            a@ == model,
            list.len() == was.children@.len(),
            forall|j: int| 0 <= j < list.len() ==> #[trigger] list[j] == node_model(was.children@[j]),
            i <= n.children@.len(),
            child_served(list, 0, kind@, model) == child_served(list, i as nat, kind@, model),
            *old(n) == was,
        decreases n.children.len() - i,
    {
        assert(list[i as int] == was.children@[i as int]@);
        if has_node(&n.children[i], kind, Ghost(model)) {
            let mut child: PlanNode = n.children.remove(i);
            let ghost before = child;
            assert(before == was.children@[i as int]);
            let found: bool = mark_first_node(&mut child, kind, a);
            let ghost after = child;
            n.children.insert(i, child);
            proof {
                assert(n.children@ =~= was.children@.update(i as int, after));
                lemma_nodes_model(n.children@);
                assert(nodes_model(n.children@) =~= list.update(i as int, after@));
            }
            return found;
        }
        i += 1;
    }
    false
}

/// The index that has the rows with the one value that a predicate asks for.
pub open spec fn point_access(
    table: Seq<char>,
    cols: Seq<ColumnModel>,
    predicate: ExprModel,
    env: Env,
    ctes: Ctes,
) -> Option<AccessModel> {
    if !sources::can_look_up(env, ctes(table), table, None) {
        None
    } else {
        match index_lookup::index_point(
            predicate,
            cols,
            env.params,
            env.storage->Some_0.indexes,
            table,
        ) {
            Some(p) => Some(AccessModel::Point { index: p.0, table }),
            None => None,
        }
    }
}

/// The index range that a predicate asks for, where it is worth the lookups.
pub open spec fn range_access(
    table: Seq<char>,
    cols: Seq<ColumnModel>,
    predicate: ExprModel,
    env: Env,
    ctes: Ctes,
) -> Option<AccessModel> {
    if env.settings.index_range_off || !sources::can_look_up(env, ctes(table), table, None) {
        None
    } else {
        let store = env.storage->Some_0;
        match index_lookup::index_range(predicate, cols, env.params, store.indexes, table) {
            None => None,
            Some(range) => match storage_view::entries_of(store.contents, range.index_name, 0) {
                None => None,
                Some(entries) => match storage_view::guarded_ids(entries, range) {
                    None => None,
                    Some(_) => Some(AccessModel::Range { range, table }),
                },
            },
        }
    }
}

/// The index that has the values of an `IN` list, where the table can be looked up.
pub open spec fn in_list_access(
    table: Seq<char>,
    probe: Option<(Seq<char>, usize)>,
    env: Env,
    ctes: Ctes,
) -> Option<AccessModel> {
    match probe {
        Some(p) => if sources::can_look_up(env, ctes(table), table, None) {
            Some(AccessModel::InList { index: p.0, table, values: p.1 })
        } else {
            None
        },
        None => None,
    }
}

/// How an index serves a predicate on a table: a single value before an `IN` list,
/// and that before a range.
pub open spec fn scan_access(
    table: Seq<char>,
    cols: Seq<ColumnModel>,
    predicate: ExprModel,
    probe: Option<(Seq<char>, usize)>,
    env: Env,
    ctes: Ctes,
) -> Option<AccessModel> {
    match point_access(table, cols, predicate, env, ctes) {
        Some(a) => Some(a),
        None => match in_list_access(table, probe, env, ctes) {
            Some(a) => Some(a),
            None => range_access(table, cols, predicate, env, ctes),
        },
    }
}

/// What is shown as served by an index is what an index serves: for a predicate
/// without subqueries and `IN` lists both are one thing.
pub proof fn law_what_is_shown_is_what_runs(
    n: semantics::ScanNode,
    predicate: ExprModel,
    env: Env,
    ctes: Ctes,
)
    requires
        n.as_of is None,
        semantics::materialized(predicate, env) == Ok::<ExprModel, ErrorModel>(predicate),
    ensures
        scan_access(n.table, n.cols, predicate, None, env, ctes) is Some <==> semantics::indexed(
            n,
            predicate,
            env,
            ctes,
        ) != Ok::<Option<Relation>, ErrorModel>(None),
{
}

/// A tree with another child at a position.
pub open spec fn with_child(n: NodeModel, at: int, c: NodeModel) -> NodeModel {
    NodeModel { children: n.children.update(at, c), ..n }
}

/// How the sort below a limit is served by an index.
pub open spec fn ordered_access(input: PlanModel, env: Env, ctes: Ctes) -> Option<AccessModel> {
    match ordered_topk::served_by_index(input, env, ctes) {
        Some(t) => Some(
            AccessModel::Ordered { index: t.index, table: t.node.table, column: t.column },
        ),
        None => None,
    }
}

/// The tree that shows a plan, with the nodes marked that an index serves.
pub open spec fn annotated(p: PlanModel, n: NodeModel, env: Env, ctes: Ctes) -> NodeModel
    decreases p, 0nat,
{
    match p {
        PlanModel::Filter { input, predicate } => {
            let access = match *input {
                PlanModel::Scan { table_name, alias, schema, projection, as_of: None } =>
                    scan_access(table_name, schema, predicate, n.in_list, env, ctes),
                _ => None,
            };
            match access {
                Some(a) => served(n, a),
                None => below(*input, n, 0, env, ctes),
            }
        },
        PlanModel::FilteredScan {
            table_name,
            alias,
            schema,
            projection,
            predicate: Some(predicate),
            as_of: None,
        } => match scan_access(table_name, schema, predicate, n.in_list, env, ctes) {
            Some(a) => served(n, a),
            None => n,
        },
        PlanModel::Limit { input, limit, offset, limit_param, offset_param } => {
            let found = match ordered_access(*input, env, ctes) {
                Some(a) => first_served(n, "Sort"@, a),
                None => None,
            };
            match found {
                Some(m) => m,
                None => below(*input, n, 0, env, ctes),
            }
        },
        PlanModel::Project { input, exprs, aliases, distinct, distinct_on, source_alias } => below(
            *input,
            n,
            0,
            env,
            ctes,
        ),
        PlanModel::Aggregate { input, group_by, aggr_exprs, having } => below(
            *input,
            n,
            0,
            env,
            ctes,
        ),
        PlanModel::Sort { input, exprs, asc } => below(*input, n, 0, env, ctes),
        PlanModel::Join { left, right, join_type, on, lateral } => below(
            *right,
            below(*left, n, 0, env, ctes),
            1,
            env,
            ctes,
        ),
        _ => n,
    }
}

/// The tree with the child at a position marked for a plan, where it has one.
pub open spec fn below(p: PlanModel, n: NodeModel, at: int, env: Env, ctes: Ctes) -> NodeModel
    decreases p, 1nat,
{
    if 0 <= at < n.children.len() {
        with_child(n, at, annotated(p, n.children[at], env, ctes))
    } else {
        n
    }
}

impl<'a> Executor<'a> {
    fn find_point_access(&self, table: &String, schema: &Schema, predicate: &LogicalExpr) -> (r:
        Option<NodeAccess>)
        ensures
            opt_access(r) == point_access(
                table@,
                schema@,
                predicate@,
                self.env(),
                self.ctes(),
            ),
    {
        let cte: Option<&CteData> = self.get_cte(table.as_str());
        if !sources::table_can_be_looked_up(self.context(), cte, table.as_str(), &None) {
            return None;
        }
        let store: &StorageView = match self.storage() {
            Some(s) => s,
            None => {
                return None;
            },
        };
        match index_lookup::indexed_equality_lookup(
            &store.indexes,
            table.as_str(),
            schema,
            predicate,
            self.parameters(),
        ) {
            Some(p) => Some(NodeAccess::Point { index: p.0, table: table.clone() }),
            None => None,
        }
    }

    fn find_range_access(&self, table: &String, schema: &Schema, predicate: &LogicalExpr) -> (r:
        Option<NodeAccess>)
        ensures
            opt_access(r) == range_access(
                table@,
                schema@,
                predicate@,
                self.env(),
                self.ctes(),
            ),
    {
        let cte: Option<&CteData> = self.get_cte(table.as_str());
        if self.settings().index_range_off || !sources::table_can_be_looked_up(
            self.context(),
            cte,
            table.as_str(),
            &None,
        ) {
            return None;
        }
        let store: &StorageView = match self.storage() {
            Some(s) => s,
            None => {
                return None;
            },
        };
        let range: IndexRangeSpec = match index_lookup::indexed_range_lookup(
            &store.indexes,
            table.as_str(),
            schema,
            predicate,
            self.parameters(),
        ) {
            Some(r) => r,
            None => {
                return None;
            },
        };
        let entries: &Vec<IndexEntry> = match store.index_entries(range.index_name.as_str()) {
            Some(e) => e,
            None => {
                return None;
            },
        };
        match storage_view::guarded_range_ids(entries, &range) {
            Some(_) => Some(NodeAccess::Range { range, table: table.clone() }),
            None => None,
        }
    }

    /// How an index serves a predicate on a table.
    pub fn find_scan_access(
        &self,
        table: &String,
        schema: &Schema,
        predicate: &LogicalExpr,
        probe: &Option<InListProbe>,
    ) -> (r: Option<NodeAccess>)
        ensures
            opt_access(r) == scan_access(
                table@,
                schema@,
                predicate@,
                probe_model(*probe),
                self.env(),
                self.ctes(),
            ),
    {
        if let Some(a) = self.find_point_access(table, schema, predicate) {
            return Some(a);
        }
        if let Some(p) = probe {
            let cte: Option<&CteData> = self.get_cte(table.as_str());
            if sources::table_can_be_looked_up(self.context(), cte, table.as_str(), &None) {
                return Some(
                    NodeAccess::InList {
                        index: p.index.clone(),
                        table: table.clone(),
                        values: p.values,
                    },
                );
            }
        }
        self.find_range_access(table, schema, predicate)
    }

    /// Marks the child at a position, where there is one.
    fn annotate_child(&self, plan: &LogicalPlan, node: &mut PlanNode, at: usize)
        ensures
            final(node)@ == below(plan@, old(node)@, at as int, self.env(), self.ctes()),
        decreases plan, 1nat,
    {
        let ghost was = *node;
        proof {
            lemma_nodes_model(node.children@);
        }
        if at < node.children.len() {
            let mut child: PlanNode = node.children.remove(at);
            self.annotate_index_range_scans(plan, &mut child);
            let ghost after = child;
            node.children.insert(at, child);
            proof {
                assert(node.children@ =~= was.children@.update(at as int, after));
                lemma_nodes_model(node.children@);
                assert(nodes_model(node.children@) =~= nodes_model(was.children@).update(
                    at as int,
                    after@,
                ));
            }
        }
    }

    /// Marks the nodes of the tree that shows a plan which an index serves, so
    /// that the plan that is shown is the one that runs.
    pub fn annotate_index_range_scans(&self, plan: &LogicalPlan, node: &mut PlanNode)
        ensures
            final(node)@ == annotated(plan@, old(node)@, self.env(), self.ctes()),
        decreases plan, 0nat,
    {
        match plan {
            LogicalPlan::Filter { input, predicate } => {
                proof {
                    reveal_with_fuel(logical_plan::plan_model, 3);
                }
                if let LogicalPlan::Scan { table_name, schema, as_of: None, .. } = &**input {
                    if let Some(a) = self.find_scan_access(
                        table_name,
                        schema,
                        predicate,
                        &node.in_list,
                    ) {
                        mark_served(node, a);
                        return ;
                    }
                }
                self.annotate_child(input, node, 0);
            },
            LogicalPlan::FilteredScan {
                table_name,
                schema,
                predicate: Some(predicate),
                as_of: None,
                ..
            } => {
                if let Some(a) = self.find_scan_access(
                        table_name,
                        schema,
                        predicate,
                        &node.in_list,
                    ) {
                    mark_served(node, a);
                }
            },
            LogicalPlan::Limit { input, .. } => {
                if let Some(t) = self.index_ordered_topk_detect(input) {
                    let table: String = t.parts.table.clone();
                    let a: NodeAccess = NodeAccess::Ordered {
                        index: t.index_name,
                        table,
                        column: t.column_name,
                    };
                    if mark_first_node(node, "Sort", a) {
                        return ;
                    }
                }
                self.annotate_child(input, node, 0);
            },
            LogicalPlan::Project { input, .. } => {
                self.annotate_child(input, node, 0);
            },
            LogicalPlan::Aggregate { input, .. } => {
                self.annotate_child(input, node, 0);
            },
            LogicalPlan::Sort { input, .. } => {
                self.annotate_child(input, node, 0);
            },
            LogicalPlan::Join { left, right, .. } => {
                self.annotate_child(left, node, 0);
                self.annotate_child(right, node, 1);
            },
            _ => {},
        }
    }
}

} // verus!
