//! The executor: runs logical plans over a storage.

use crate::executor::any_operator::AnyOperator;
use crate::executor::cluster::ClusterView;
use crate::executor::decode_hints;
use crate::executor::decode_hints::{compute_scan_decode_hints, HintModel, ScanDecodeHint};
use crate::executor::handle_count;
use crate::executor::handle_scan::ScanParts;
use crate::executor::operator;
use crate::executor::operator::{PhysicalOperator, TimeoutContext};
use crate::executor::semantics;
use crate::executor::semantics::{Built, Ctes};
use crate::executor::set_ops::SetOperation;
use crate::executor::sources;
use crate::executor::sources::{Context, CteData, CteModel, Env, Settings};
use crate::executor::storage_view;
use crate::executor::storage_view::{StorageView, TransactionView};
use crate::executor::subquery;
use crate::executor::table_function::handle_table_function;
use crate::logical_plan;
use crate::logical_plan::LogicalPlan;
use crate::schema;
use crate::schema::{Error, ErrorModel, Schema, Tuple, TupleModel};
use crate::text;
use crate::value;
use crate::value::{Value, ValueModel};
use vstd::prelude::*;

verus! {

/// Runs logical plans: each is turned into a tree of operators, which is then
/// asked for its rows.
pub struct Executor<'a> {
    context: Context<'a>,
    timeout_ctx: Option<TimeoutContext>,
    cte_context: Vec<CteData>,
    scan_decode_hints: Vec<(String, ScanDecodeHint)>,
}

/// The common table expression of a name, from a position of a list on.
pub open spec fn cte_named(s: Seq<CteData>, name: Seq<char>, from: nat) -> Option<CteModel>
    decreases s.len() - from,
{
    if from >= s.len() {
        None
    } else if s[from as int].name@ == name {
        Some(s[from as int]@)
    } else {
        cte_named(s, name, from + 1)
    }
}

/// Whether building a plan came to what it should: its rows and the common table
/// expressions behind it, or its error, or the time limit exceeded where there is one.
pub open spec fn builds_plan(
    r: Result<AnyOperator, Error>,
    expected: Result<Built, ErrorModel>,
    after: Ctes,
    limit: Option<u64>,
) -> bool {
    match r {
        Ok(op) => expected matches Ok(b) && op.gives(b.rel, limit) && after == b.ctes,
        Err(e) => {
            ||| operator::timed_out(operator::limits_of(limit), e@)
            ||| expected == Err::<Built, ErrorModel>(e@)
        },
    }
}

/// Whether rows, their error, or one of the time limits exceeded, came back.
pub open spec fn rows_come(
    r: Result<Vec<Tuple>, Error>,
    expected: Result<Seq<TupleModel>, ErrorModel>,
    limits: Set<u64>,
) -> bool {
    match r {
        Ok(v) => expected == Ok::<Seq<TupleModel>, ErrorModel>(schema::rows_model(v@)),
        Err(e) => {
            ||| operator::timed_out(limits, e@)
            ||| expected == Err::<Seq<TupleModel>, ErrorModel>(e@)
        },
    }
}

/// The names of columns.
pub open spec fn names_of(cols: Seq<schema::ColumnModel>) -> Seq<Seq<char>> {
    Seq::new(cols.len(), |i: int| cols[i].name)
}

/// The decode hint for a table, from a position of a list on.
pub open spec fn hint_for(s: Seq<(Seq<char>, HintModel)>, table: Seq<char>, from: nat) -> Option<
    HintModel,
>
    decreases s.len() - from,
{
    if from >= s.len() {
        None
    } else if s[from as int].0 == table {
        Some(s[from as int].1)
    } else {
        hint_for(s, table, from + 1)
    }
}

proof fn lemma_cte_pushed(s: Seq<CteData>, c: CteData, name: Seq<char>, from: nat)
    requires
        cte_named(s, c.name@, 0) is None || from > 0,
        forall|i: int| 0 <= i < s.len() ==> (#[trigger] s[i]).name@ != c.name@,
    ensures
        cte_named(s.push(c), name, from) == (if from > s.len() {
            None
        } else if name == c.name@ {
            Some(c@)
        } else {
            cte_named(s, name, from)
        }),
    decreases s.len() - from,
{
    if from < s.len() {
        assert(s.push(c)[from as int] == s[from as int]);
        lemma_cte_pushed(s, c, name, from + 1);
    } else if from == s.len() {
        assert(s.push(c)[from as int] == c);
        assert(cte_named(s.push(c), name, from + 1) is None);
    }
}

proof fn lemma_cte_replaced(s: Seq<CteData>, at: int, c: CteData, name: Seq<char>, from: nat)
    requires
        0 <= at < s.len(),
        s[at].name@ == c.name@,
        forall|i: int| 0 <= i < at ==> (#[trigger] s[i]).name@ != c.name@,
        from <= at,
    ensures
        cte_named(s.update(at, c), name, from) == (if name == c.name@ {
            Some(c@)
        } else {
            cte_named(s, name, from)
        }),
    decreases s.len() - from,
{
    let u = s.update(at, c);
    if from < at {
        assert(u[from as int] == s[from as int]);
        lemma_cte_replaced(s, at, c, name, from + 1);
    } else {
        assert(u[from as int] == c);
        if name != c.name@ {
            lemma_cte_unchanged(s, u, name, from + 1);
        }
    }
}

proof fn lemma_cte_unchanged(s: Seq<CteData>, u: Seq<CteData>, name: Seq<char>, from: nat)
    requires
        s.len() == u.len(),
        forall|i: int| from <= i < s.len() ==> s[i] == u[i],
    ensures
        cte_named(s, name, from) == cte_named(u, name, from),
    decreases s.len() - from,
{
    if from < s.len() {
        lemma_cte_unchanged(s, u, name, from + 1);
    }
}

impl<'a> Executor<'a> {
    /// What the executor works on.
    pub closed spec fn env(&self) -> Env {
        self.context@
    }

    /// The common table expressions that it can see.
    pub closed spec fn ctes(&self) -> Ctes {
        |name: Seq<char>| cte_named(self.cte_context@, name, 0)
    }

    /// Whether the time since the start is known, and the time limit in milliseconds
    /// where there is one.
    pub closed spec fn timing(&self) -> Option<Option<u64>> {
        match self.timeout_ctx {
            Some(c) => Some(c.limit()),
            None => None,
        }
    }

    /// The time limit in milliseconds.
    pub open spec fn limit(&self) -> Option<u64> {
        match self.timing() {
            Some(limit) => limit,
            None => None,
        }
    }

    /// Whether the time since the start is known.
    pub open spec fn clocked(&self) -> bool {
        self.timing() is Some
    }

    /// The decode hints of the last plan that was executed.
    pub closed spec fn hints(&self) -> Seq<(Seq<char>, HintModel)> {
        decode_hints::hints_model(self.scan_decode_hints@)
    }

    /// An executor without storage.
    pub fn new() -> (r: Executor<'a>)
        ensures
            r.env() == (Env {
                storage: None,
                transaction: None,
                params: Seq::empty(),
                settings: sources::standard_settings(),
                system_view_names: Seq::empty(),
                cluster: None,
            }),
            r.ctes() == semantics::no_ctes(),
            r.timing() is None,
            r.hints() == Seq::<(Seq<char>, HintModel)>::empty(),
    {
        let r: Executor<'a> = Executor {
            context: Context {
                storage: None,
                transaction: None,
                parameters: Vec::new(),
                settings: Settings::standard(),
                system_view_names: Vec::new(),
                cluster: None,
            },
            timeout_ctx: None,
            cte_context: Vec::new(),
            scan_decode_hints: Vec::new(),
        };
        assert(r.env().params =~= Seq::<ValueModel>::empty());
        assert(r.env().system_view_names =~= Seq::<Seq<char>>::empty());
        assert(r.ctes() =~= semantics::no_ctes());
        assert(r.hints() =~= Seq::<(Seq<char>, HintModel)>::empty());
        r
    }

    /// An executor on a storage.
    pub fn with_storage(storage: &'a StorageView) -> (r: Executor<'a>)
        ensures
            r.env() == (Env {
                storage: Some(storage@),
                transaction: None,
                params: Seq::empty(),
                settings: sources::standard_settings(),
                system_view_names: Seq::empty(),
                cluster: None,
            }),
            r.ctes() == semantics::no_ctes(),
            r.timing() is None,
            r.hints() == Seq::<(Seq<char>, HintModel)>::empty(),
    {
        let mut r: Executor<'a> = Executor::new();
        r.context.storage = Some(storage);
        r
    }

    /// The executor inside a transaction.
    pub fn with_transaction(self, txn: &'a TransactionView) -> (r: Executor<'a>)
        ensures
            r.env() == (Env { transaction: Some(txn@), ..self.env() }),
            r.ctes() == self.ctes(),
            r.timing() == self.timing(),
            r.hints() == self.hints(),
    {
        let mut r: Executor<'a> = self;
        r.context.transaction = Some(txn);
        r
    }

    /// The executor with a time limit in milliseconds, or with none.
    pub fn with_timeout(self, timeout_ms: Option<u64>) -> (r: Executor<'a>)
        ensures
            r.env() == self.env(),
            r.ctes() == self.ctes(),
            r.timing() == Some(timeout_ms),
            r.hints() == self.hints(),
    {
        let mut r: Executor<'a> = self;
        r.timeout_ctx = Some(TimeoutContext::new(timeout_ms));
        r
    }

    /// The executor under a time limit that runs already.
    pub fn with_clock(self, clock: TimeoutContext) -> (r: Executor<'a>)
        ensures
            r.env() == self.env(),
            r.ctes() == self.ctes(),
            r.timing() == Some(clock.limit()),
            r.hints() == self.hints(),
    {
        let mut r: Executor<'a> = self;
        r.timeout_ctx = Some(clock);
        r
    }

    /// The executor with the values of the bind parameters.
    pub fn with_parameters(self, parameters: Vec<Value>) -> (r: Executor<'a>)
        ensures
            r.env() == (Env { params: value::values_model(parameters@), ..self.env() }),
            r.ctes() == self.ctes(),
            r.timing() == self.timing(),
            r.hints() == self.hints(),
    {
        let mut r: Executor<'a> = self;
        r.context.parameters = parameters;
        r
    }

    /// The executor with other limits and switches.
    pub fn with_settings(self, settings: Settings) -> (r: Executor<'a>)
        ensures
            r.env() == (Env { settings, ..self.env() }),
            r.ctes() == self.ctes(),
            r.timing() == self.timing(),
            r.hints() == self.hints(),
    {
        let mut r: Executor<'a> = self;
        r.context.settings = settings;
        r
    }

    /// The executor that knows the system views by name.
    pub fn with_system_views(self, names: Vec<String>) -> (r: Executor<'a>)
        ensures
            r.env() == (Env { system_view_names: schema::texts(names@), ..self.env() }),
            r.ctes() == self.ctes(),
            r.timing() == self.timing(),
            r.hints() == self.hints(),
    {
        let mut r: Executor<'a> = self;
        r.context.system_view_names = names;
        r
    }

    /// The executor on a node of a cluster.
    pub fn with_cluster(self, cluster: &'a ClusterView) -> (r: Executor<'a>)
        ensures
            r.env() == (Env { cluster: Some(cluster@), ..self.env() }),
            r.ctes() == self.ctes(),
            r.timing() == self.timing(),
            r.hints() == self.hints(),
    {
        let mut r: Executor<'a> = self;
        r.context.cluster = Some(cluster);
        r
    }

    /// The cluster that the node is in.
    pub fn cluster(&self) -> (r: Option<&'a ClusterView>)
        ensures
            match r {
                Some(c) => self.env().cluster == Some(c@),
                None => self.env().cluster is None,
            },
    {
        self.context.cluster
    }

    /// The common table expression of a name.
    pub fn get_cte(&self, name: &str) -> (r: Option<&CteData>)
        ensures
            sources::opt_cte(r) == (self.ctes())(name@),
    {
        let mut i: usize = 0;
        while i < self.cte_context.len()
            invariant
                i <= self.cte_context@.len(),
                cte_named(self.cte_context@, name@, 0) == cte_named(
                    self.cte_context@,
                    name@,
                    i as nat,
                ),
            decreases self.cte_context.len() - i,
        {
            if text::same_text(self.cte_context[i].name.as_str(), name) {
                return Some(&self.cte_context[i]);
            }
            i += 1;
        }
        None
    }

    /// Makes a common table expression visible; one of the same name is hidden.
    pub fn add_cte(&mut self, cte: CteData)
        ensures
            final(self).ctes() == semantics::with_cte(old(self).ctes(), cte@),
            final(self).env() == old(self).env(),
            final(self).timing() == old(self).timing(),
            final(self).hints() == old(self).hints(),
    {
        let ghost before = self.cte_context@;
        let ghost c = cte;
        let mut i: usize = 0;
        while i < self.cte_context.len()
            invariant
                *self == *old(self),
                before == self.cte_context@,
                c == cte,
                i <= before.len(),
                forall|j: int| 0 <= j < i ==> (#[trigger] before[j]).name@ != cte.name@,
            decreases before.len() - i,
        {
            if text::same_text(self.cte_context[i].name.as_str(), cte.name.as_str()) {
                let ghost at = i as int;
                self.cte_context.set(i, cte);
                proof {
                    assert forall|name: Seq<char>| (#[trigger] (self.ctes())(name))
                        == (semantics::with_cte(old(self).ctes(), c@))(name) by {
                        lemma_cte_replaced(before, at, c, name, 0);
                    }
                    assert(self.ctes() =~= semantics::with_cte(old(self).ctes(), c@));
                }
                return;
            }
            i += 1;
        }
        self.cte_context.push(cte);
        proof {
            assert forall|name: Seq<char>| (#[trigger] (self.ctes())(name)) == (semantics::with_cte(
                old(self).ctes(),
                c@,
            ))(name) by {
                lemma_cte_absent(before, c.name@, 0);
                lemma_cte_pushed(before, c, name, 0);
            }
            assert(self.ctes() =~= semantics::with_cte(old(self).ctes(), c@));
        }
    }

    /// The decode hint for a table, where the last plan gave one.
    pub fn scan_decode_hint_for(&self, table: &str) -> (r: Option<&ScanDecodeHint>)
        ensures
            match r {
                Some(h) => hint_for(self.hints(), table@, 0) == Some(h@),
                None => hint_for(self.hints(), table@, 0) is None,
            },
    {
        let mut i: usize = 0;
        while i < self.scan_decode_hints.len()
            invariant
                i <= self.scan_decode_hints@.len(),
                hint_for(self.hints(), table@, 0) == hint_for(self.hints(), table@, i as nat),
            decreases self.scan_decode_hints.len() - i,
        {
            if text::same_text(self.scan_decode_hints[i].0.as_str(), table) {
                return Some(&self.scan_decode_hints[i].1);
            }
            i += 1;
        }
        None
    }

    /// What the executor works on.
    pub(crate) fn context(&self) -> (r: &Context<'a>)
        ensures
            r@ == self.env(),
    {
        &self.context
    }

    /// The storage.
    pub fn storage(&self) -> (r: Option<&'a StorageView>)
        ensures
            storage_view::opt_store(r) == self.env().storage,
    {
        self.context.storage
    }

    /// The transaction.
    pub fn transaction(&self) -> (r: Option<&'a TransactionView>)
        ensures
            storage_view::opt_txn(r) == self.env().transaction,
    {
        self.context.transaction
    }

    /// The values of the bind parameters.
    pub fn parameters(&self) -> (r: &Vec<Value>)
        ensures
            value::values_model(r@) == self.env().params,
    {
        &self.context.parameters
    }

    /// The limits and switches.
    pub fn settings(&self) -> (r: Settings)
        ensures
            r == self.env().settings,
    {
        self.context.settings
    }

    /// The time limit.
    pub fn timeout_ctx(&self) -> (r: Option<TimeoutContext>)
        ensures
            operator::limit_of(r) == self.limit(),
            (r is Some) == self.clocked(),
    {
        operator::clone_timeout(&self.timeout_ctx)
    }

    /// An executor for a subquery: on the same storage and parameters, without
    /// the transaction and the time limit.
    pub(crate) fn for_subquery(&self) -> (r: Executor<'a>)
        ensures
            r.env() == semantics::inner_env(self.env()),
            r.ctes() == semantics::no_ctes(),
            r.timing() is None,
    {
        let r: Executor<'a> = Executor {
            context: Context {
                storage: self.context.storage,
                transaction: None,
                parameters: value::clone_values(&self.context.parameters),
                settings: self.context.settings,
                system_view_names: schema::clone_texts(&self.context.system_view_names),
                cluster: self.context.cluster,
            },
            timeout_ctx: None,
            cte_context: Vec::new(),
            scan_decode_hints: Vec::new(),
        };
        assert(r.ctes() =~= semantics::no_ctes());
        r
    }

    /// An executor for a subquery that sees the same common table expressions.
    pub(crate) fn for_correlated_subquery(&self) -> (r: Executor<'a>)
        ensures
            r.env() == semantics::inner_env(self.env()),
            r.ctes() == self.ctes(),
            r.timing() is None,
    {
        let mut r: Executor<'a> = self.for_subquery();
        r.cte_context = Vec::new();
        let mut i: usize = 0;
        while i < self.cte_context.len()
            invariant
                r.env() == semantics::inner_env(self.env()),
                r.timing() is None,
                i <= self.cte_context@.len(),
                r.cte_context@.len() == i,
                forall|j: int|
                    0 <= j < i ==> (#[trigger] r.cte_context@[j])@ == self.cte_context@[j]@,
            decreases self.cte_context.len() - i,
        {
            r.cte_context.push(self.cte_context[i].clone());
            i += 1;
        }
        proof {
            assert forall|name: Seq<char>| (#[trigger] (r.ctes())(name)) == (self.ctes())(name) by {
                lemma_cte_alike(r.cte_context@, self.cte_context@, name, 0);
            }
            assert(r.ctes() =~= self.ctes());
        }
        r
    }
}

proof fn lemma_cte_absent(s: Seq<CteData>, name: Seq<char>, from: nat)
    requires
        forall|i: int| 0 <= i < s.len() ==> (#[trigger] s[i]).name@ != name,
    ensures
        cte_named(s, name, from) is None,
    decreases s.len() - from,
{
    if from < s.len() {
        lemma_cte_absent(s, name, from + 1);
    }
}

proof fn lemma_cte_alike(s: Seq<CteData>, u: Seq<CteData>, name: Seq<char>, from: nat)
    requires
        s.len() == u.len(),
        forall|i: int| 0 <= i < s.len() ==> (#[trigger] s[i])@ == u[i]@,
    ensures
        cte_named(s, name, from) == cte_named(u, name, from),
    decreases s.len() - from,
{
    if from < s.len() {
        assert(s[from as int]@.name == u[from as int]@.name);
        lemma_cte_alike(s, u, name, from + 1);
    }
}

impl<'a> Executor<'a> {
    /// Turns a plan into a tree of operators.
    pub fn plan_to_operator(&mut self, plan: &LogicalPlan) -> (r: Result<AnyOperator, Error>)
        ensures
            final(self).env() == old(self).env(),
            final(self).timing() == old(self).timing(),
            final(self).hints() == old(self).hints(),
            builds_plan(
                r,
                semantics::run(plan@, old(self).env(), old(self).ctes()),
                final(self).ctes(),
                old(self).limit(),
            ),
        decreases subquery::plan_size(plan@), 3nat, 0nat,
    {
        match plan {
            LogicalPlan::Scan { table_name, alias, schema, projection, as_of } => self.handle_scan(
                &ScanParts { table: table_name, alias, schema, projection, as_of },
            ),
            LogicalPlan::FilteredScan {
                table_name,
                alias,
                schema,
                projection,
                predicate,
                as_of,
            } => {
                let n: ScanParts<'_> = ScanParts {
                    table: table_name,
                    alias,
                    schema,
                    projection,
                    as_of,
                };
                match predicate {
                    Some(e) => self.handle_filtered_scan(&n, e),
                    None => self.handle_scan(&n),
                }
            },
            LogicalPlan::TableFunction { function_name, args, alias } => handle_table_function(
                function_name.as_str(),
                args,
                alias,
                self.parameters(),
            ),
            LogicalPlan::Filter { input, predicate } => self.handle_filter(input, predicate),
            LogicalPlan::Project { input, exprs, aliases, distinct, distinct_on, .. } => {
                proof {
                    logical_plan::lemma_exprs_model(exprs@);
                }
                self.handle_project(input, exprs, aliases, *distinct, distinct_on)
            },
            LogicalPlan::Limit { input, limit, offset, limit_param, offset_param } => {
                let l: usize = match sources::resolve_bound(
                    *limit,
                    *limit_param,
                    self.parameters(),
                ) {
                    Ok(l) => l,
                    Err(e) => {
                        return Err(e);
                    },
                };
                let o: usize = match sources::resolve_bound(
                    *offset,
                    *offset_param,
                    self.parameters(),
                ) {
                    Ok(o) => o,
                    Err(e) => {
                        return Err(e);
                    },
                };
                self.handle_limit(input, l, o)
            },
            LogicalPlan::Sort { input, exprs, asc } => {
                let ghost rel = semantics::run(input@, self.env(), self.ctes())->Ok_0.rel;
                match self.plan_to_operator(input) {
                    Ok(op) => self.sort_over(op, exprs, asc, Ghost(rel)),
                    Err(e) => Err(e),
                }
            },
            LogicalPlan::Aggregate { input, group_by, aggr_exprs, having } => {
                if handle_count::is_count_star(group_by, aggr_exprs, having) {
                    self.handle_count(input)
                } else {
                    Err(handle_count::left_unanswered_error(plan))
                }
            },
            LogicalPlan::Join { left, right, join_type, on, lateral } => self.handle_join(
                left,
                right,
                *join_type,
                on,
                *lateral,
            ),
            LogicalPlan::Union { left, right, all } => self.handle_union(left, right, *all),
            LogicalPlan::Intersect { left, right, all } => self.handle_set_operation(
                left,
                right,
                SetOperation::Intersect,
                *all,
            ),
            LogicalPlan::Except { left, right, all } => self.handle_set_operation(
                left,
                right,
                SetOperation::Except,
                *all,
            ),
            LogicalPlan::With { ctes, query, recursive } => {
                match self.handle_with(ctes, *recursive) {
                    Ok(_) => self.plan_to_operator(query),
                    Err(e) => Err(e),
                }
            },
            _ => self.handle_statement(plan),
        }
    }

    /// Runs a plan and collects its rows.
    pub fn execute(&mut self, plan: &LogicalPlan) -> (r: Result<Vec<Tuple>, Error>)
        ensures
            final(self).env() == old(self).env(),
            final(self).timing() == old(self).timing(),
            final(self).hints() == decode_hints::decode_hints(plan@),
            rows_come(
                r,
                semantics::rows_given(semantics::run(plan@, old(self).env(), old(self).ctes())),
                operator::limits_of(old(self).limit()),
            ),
            r is Ok ==> (semantics::run(plan@, old(self).env(), old(self).ctes()) matches Ok(b)
                && final(self).ctes() == b.ctes),
        decreases subquery::plan_size(plan@), 4nat, 0nat,
    {
        self.scan_decode_hints = compute_scan_decode_hints(plan);
        let mut op: AnyOperator = match self.plan_to_operator(plan) {
            Ok(op) => op,
            Err(e) => {
                return Err(e);
            },
        };
        operator::drain(&mut op)
    }

    /// Runs a plan and collects its rows and the names of its columns.
    pub fn execute_with_columns(&mut self, plan: &LogicalPlan) -> (r: Result<
        (Vec<Tuple>, Vec<String>),
        Error,
    >)
        ensures
            final(self).env() == old(self).env(),
            final(self).timing() == old(self).timing(),
            final(self).hints() == decode_hints::decode_hints(plan@),
            ({
                let expected = semantics::run(plan@, old(self).env(), old(self).ctes());
                match r {
                    Ok(given) => {
                        &&& expected matches Ok(b)
                        &&& b.rel.rows == operator::just_rows(schema::rows_model(given.0@))
                        &&& schema::texts(given.1@) == names_of(b.rel.columns)
                        &&& final(self).ctes() == b.ctes
                    },
                    Err(e) => {
                        ||| operator::timed_out(operator::limits_of(old(self).limit()), e@)
                        ||| semantics::rows_given(expected) == Err::<Seq<TupleModel>, ErrorModel>(
                            e@,
                        )
                    },
                }
            }),
        decreases subquery::plan_size(plan@), 4nat, 0nat,
    {
        self.scan_decode_hints = compute_scan_decode_hints(plan);
        let mut op: AnyOperator = match self.plan_to_operator(plan) {
            Ok(op) => op,
            Err(e) => {
                return Err(e);
            },
        };
        let columns: Vec<String> = column_names(&op.schema());
        match operator::drain(&mut op) {
            Ok(rows) => Ok((rows, columns)),
            Err(e) => Err(e),
        }
    }
}

/// The names of the columns of a schema.
fn column_names(schema: &Schema) -> (r: Vec<String>)
    ensures
        schema::texts(r@) == names_of(schema@),
{
    let mut out: Vec<String> = Vec::new();
    let mut i: usize = 0;
    while i < schema.columns.len()
        invariant
            i <= schema.columns@.len(),
            out@.len() == i,
            forall|j: int| 0 <= j < i ==> (#[trigger] out@[j])@ == schema.columns@[j].name@,
        decreases schema.columns.len() - i,
    {
        out.push(schema.columns[i].name.clone());
        i += 1;
    }
    assert(schema::texts(out@) =~= names_of(schema@));
    out
}

} // verus!
