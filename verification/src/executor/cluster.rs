//! Statements on the cluster: switchover, its preconditions, and what the nodes
//! are.

use crate::acl_views;
use crate::executor::any_operator;
use crate::executor::any_operator::AnyOperator;
use crate::executor::handle_rows;
use crate::executor::operator::Relation;
use crate::executor::plan_text;
use crate::executor::scan::StatusMessageOperator;
use crate::executor::semantics;
use crate::logical_plan::{LogicalPlan, PlanModel};
use crate::parsing;
use crate::schema;
use crate::schema::{Column, ColumnModel, Error, ErrorModel, Schema, Tuple, TupleModel};
use crate::text;
use crate::value;
use crate::value::{DataType, Value, ValueModel};
use std::sync::Arc;
use vstd::prelude::*;
use vstd::string::*;

verus! {

/// What a node is in its cluster.
#[derive(Clone, Copy, PartialEq, Eq, Structural, Debug)]
pub enum HaRole {
    Primary,
    Standby,
    Standalone,
    Observer,
}

/// How this node is set up.
#[derive(Debug)]
pub struct NodeConfig {
    pub node_id: u128,
    pub listen_addr: String,
    pub replication_port: u16,
}

/// A standby that is connected.
#[derive(Debug)]
pub struct StandbyNode {
    pub node_id: u128,
    pub address: String,
    pub apply_lsn: u64,
    pub lag_ms: u64,
}

/// What the topology knows of a node.
#[derive(Debug)]
pub struct TopologyNode {
    pub node_id: u128,
    pub alias: Option<String>,
    pub display_name: String,
    pub priority: u32,
    pub weight: u32,
    pub health_message: Option<String>,
}

/// A name that the topology knows a node by.
#[derive(Debug)]
pub struct NodeName {
    pub name: String,
    pub node_id: u128,
}

/// What this node knows of its cluster.
#[derive(Debug)]
pub struct ClusterView {
    pub role: HaRole,
    pub lsn: u64,
    pub config: Option<NodeConfig>,
    pub standbys: Vec<StandbyNode>,
    pub topology: Vec<TopologyNode>,
    pub names: Vec<NodeName>,
    /// What the topology answers to another name for a node.
    pub accepts_alias: bool,
}

#[verifier::ext_equal]
pub struct ConfigModel {
    pub node_id: u128,
    pub listen_addr: Seq<char>,
    pub replication_port: u16,
}

#[verifier::ext_equal]
pub struct StandbyModel {
    pub node_id: u128,
    pub address: Seq<char>,
    pub apply_lsn: u64,
    pub lag_ms: u64,
}

#[verifier::ext_equal]
pub struct TopologyModel {
    pub node_id: u128,
    pub alias: Option<Seq<char>>,
    pub display_name: Seq<char>,
    pub priority: u32,
    pub weight: u32,
    pub health_message: Option<Seq<char>>,
}

#[verifier::ext_equal]
pub struct ClusterModel {
    pub role: HaRole,
    pub lsn: u64,
    pub config: Option<ConfigModel>,
    pub standbys: Seq<StandbyModel>,
    pub topology: Seq<TopologyModel>,
    pub names: Seq<(Seq<char>, u128)>,
    pub accepts_alias: bool,
}

impl View for NodeConfig {
    type V = ConfigModel;

    open spec fn view(&self) -> ConfigModel {
        ConfigModel {
            node_id: self.node_id,
            listen_addr: self.listen_addr@,
            replication_port: self.replication_port,
        }
    }
}

impl View for StandbyNode {
    type V = StandbyModel;

    open spec fn view(&self) -> StandbyModel {
        StandbyModel {
            node_id: self.node_id,
            address: self.address@,
            apply_lsn: self.apply_lsn,
            lag_ms: self.lag_ms,
        }
    }
}

impl View for TopologyNode {
    type V = TopologyModel;

    open spec fn view(&self) -> TopologyModel {
        TopologyModel {
            node_id: self.node_id,
            alias: schema::opt_text(self.alias),
            display_name: self.display_name@,
            priority: self.priority,
            weight: self.weight,
            health_message: schema::opt_text(self.health_message),
        }
    }
}

pub open spec fn standbys_model(s: Seq<StandbyNode>) -> Seq<StandbyModel> {
    Seq::new(s.len(), |i: int| s[i]@)
}

/// What names of nodes stand for.
pub open spec fn names_model(s: Seq<NodeName>) -> Seq<(Seq<char>, u128)> {
    Seq::new(s.len(), |i: int| (s[i].name@, s[i].node_id))
}

pub open spec fn topology_model(s: Seq<TopologyNode>) -> Seq<TopologyModel> {
    Seq::new(s.len(), |i: int| s[i]@)
}

impl View for ClusterView {
    type V = ClusterModel;

    open spec fn view(&self) -> ClusterModel {
        ClusterModel {
            role: self.role,
            lsn: self.lsn,
            config: match self.config {
                Some(c) => Some(c@),
                None => None,
            },
            standbys: standbys_model(self.standbys@),
            topology: topology_model(self.topology@),
            names: names_model(self.names@),
            accepts_alias: self.accepts_alias,
        }
    }
}

pub open spec fn failure(message: Seq<char>) -> ErrorModel {
    ErrorModel::QueryExecution(message)
}

/// The standby with a number, from a position on.
pub open spec fn standby_with(s: Seq<StandbyModel>, id: u128, from: nat) -> Option<StandbyModel>
    decreases s.len() - from,
{
    if from >= s.len() {
        None
    } else if s[from as int].node_id == id {
        Some(s[from as int])
    } else {
        standby_with(s, id, from + 1)
    }
}

/// What the topology knows of the node with a number, from a position on.
pub open spec fn node_with(s: Seq<TopologyModel>, id: u128, from: nat) -> Option<TopologyModel>
    decreases s.len() - from,
{
    if from >= s.len() {
        None
    } else if s[from as int].node_id == id {
        Some(s[from as int])
    } else {
        node_with(s, id, from + 1)
    }
}

fn find_standby<'c>(v: &'c Vec<StandbyNode>, id: u128) -> (r: Option<&'c StandbyNode>)
    ensures
        match r {
            Some(x) => standby_with(standbys_model(v@), id, 0) == Some(x@),
            None => standby_with(standbys_model(v@), id, 0) is None,
        },
{
    let ghost model = standbys_model(v@);
    let mut i: usize = 0;
    while i < v.len()
        invariant
            model == standbys_model(v@),
            i <= v@.len(),
            standby_with(model, id, 0) == standby_with(model, id, i as nat),
        decreases v.len() - i,
    {
        assert(model[i as int] == v@[i as int]@);
        if v[i].node_id == id {
            return Some(&v[i]);
        }
        i += 1;
    }
    None
}

fn find_node<'c>(v: &'c Vec<TopologyNode>, id: u128) -> (r: Option<&'c TopologyNode>)
    ensures
        match r {
            Some(x) => node_with(topology_model(v@), id, 0) == Some(x@),
            None => node_with(topology_model(v@), id, 0) is None,
        },
{
    let ghost model = topology_model(v@);
    let mut i: usize = 0;
    while i < v.len()
        invariant
            model == topology_model(v@),
            i <= v@.len(),
            node_with(model, id, 0) == node_with(model, id, i as nat),
        decreases v.len() - i,
    {
        assert(model[i as int] == v@[i as int]@);
        if v[i].node_id == id {
            return Some(&v[i]);
        }
        i += 1;
    }
    None
}

/// The node that a name stands for: the one that the topology `known` under it,
/// else the one whose number it spells.
pub open spec fn target_node(known: Option<u128>, spelled: Option<u128>) -> Option<u128> {
    match known {
        Some(id) => Some(id),
        None => spelled,
    }
}

pub open spec fn no_such_target(name: Seq<char>) -> ErrorModel {
    failure("Target node '"@ + name + "' not found. Specify a valid node alias or UUID."@)
}

/// The node that the topology knows by a name.
pub open spec fn known_as(names: Seq<(Seq<char>, u128)>, name: Seq<char>, from: nat) -> Option<u128>
    decreases names.len() - from,
{
    if from >= names.len() {
        None
    } else if names[from as int].0 == name {
        Some(names[from as int].1)
    } else {
        known_as(names, name, from + 1)
    }
}

impl ClusterView {
    /// The node that the topology knows by a name.
    pub fn find_node(&self, name: &str) -> (r: Option<u128>)
        ensures
            r == known_as(self@.names, name@, 0),
    {
        let ghost model = names_model(self.names@);
        let mut i: usize = 0;
        while i < self.names.len()
            invariant
                model == names_model(self.names@),
                i <= self.names@.len(),
                known_as(model, name@, 0) == known_as(model, name@, i as nat),
            decreases self.names.len() - i,
        {
            assert(model[i as int] == (self.names@[i as int].name@, self.names@[i as int].node_id));
            if text::same_text(self.names[i].name.as_str(), name) {
                return Some(self.names[i].node_id);
            }
            i += 1;
        }
        None
    }
}

/// The node that a name stands for: one that the topology knows, or else one whose
/// number it spells.
pub open spec fn named_target(c: ClusterModel, name: Seq<char>) -> Option<u128> {
    target_node(known_as(c.names, name, 0), parsing::uuid_spelled(name))
}

/// What the statements on a cluster give; `None` where a plan is no such statement.
pub open spec fn cluster_answer(p: PlanModel, c: ClusterModel) -> Option<
    Result<Relation, ErrorModel>,
> {
    match p {
        PlanModel::Switchover { target_node } => Some(
            switched_over(c, target_node, named_target(c, target_node)),
        ),
        PlanModel::SwitchoverCheck { target_node } => Some(
            checked(c, target_node, named_target(c, target_node)),
        ),
        PlanModel::ClusterStatus => Some(Ok(cluster_status(c))),
        PlanModel::SetNodeAlias { node_id, alias } => Some(
            match alias_change(node_id, named_target(c, node_id), alias, looks_like_uuid(alias)) {
                Err(e) => Err(e),
                Ok(change) => alias_answer(change, c.accepts_alias),
            },
        ),
        PlanModel::ShowTopology => Some(Ok(cluster_topology(c))),
        _ => None,
    }
}

/// Whether an operator came of a statement on a cluster.
pub open spec fn answers(
    r: Option<Result<AnyOperator, Error>>,
    expected: Option<Result<Relation, ErrorModel>>,
) -> bool {
    match (r, expected) {
        (Some(got), Some(e)) => any_operator::builds(got, e, None),
        (None, None) => true,
        _ => false,
    }
}

/// Answers a statement on a cluster; `None` where a plan is no such statement.
pub fn answer_cluster_statement(plan: &LogicalPlan, c: &ClusterView) -> (r: Option<
    Result<AnyOperator, Error>,
>)
    ensures
        answers(r, cluster_answer(plan@, c@)),
{
    match plan {
        LogicalPlan::Switchover { target_node } => Some(
            handle_switchover(c, c.find_node(target_node.as_str()), target_node.as_str()),
        ),
        LogicalPlan::SwitchoverCheck { target_node } => Some(
            handle_switchover_check(c, c.find_node(target_node.as_str()), target_node.as_str()),
        ),
        LogicalPlan::ClusterStatus => Some(Ok(handle_cluster_status(c))),
        LogicalPlan::SetNodeAlias { node_id, alias } => match handle_set_node_alias(
            node_id.as_str(),
            c.find_node(node_id.as_str()),
            alias,
        ) {
            Ok(change) => Some(answer_set_node_alias(&change, c.accepts_alias)),
            Err(e) => Some(Err(e)),
        },
        LogicalPlan::ShowTopology => Some(Ok(handle_show_topology(c))),
        _ => None,
    }
}

/// The node that a name stands for.
pub fn resolve_target(known: Option<u128>, name: &str) -> (r: Option<u128>)
    ensures
        r == target_node(known, parsing::uuid_spelled(name@)),
{
    match known {
        Some(id) => Some(id),
        None => parsing::parse_uuid(name),
    }
}

/// What a switchover to a node comes to.
pub open spec fn switched_over(c: ClusterModel, name: Seq<char>, target: Option<u128>) -> Result<
    Relation,
    ErrorModel,
> {
    match target {
        None => Err(no_such_target(name)),
        Some(id) => {
            let shown = parsing::uuid_text(id);
            if c.role != HaRole::Primary {
                Err(failure("Switchover can only be initiated from the primary node"@))
            } else if standby_with(c.standbys, id, 0) is None {
                Err(
                    failure(
                        "Target standby '"@ + name + "' ("@ + shown
                            + ") not found or not connected"@,
                    ),
                )
            } else {
                Ok(
                    semantics::status(
                        "Switchover to node "@ + (match node_with(c.topology, id, 0) {
                            Some(n) => n.display_name,
                            None => name,
                        }) + " ("@ + shown
                            + ") initiated. This is a placeholder - full async switchover requires runtime integration."@,
                    ),
                )
            }
        },
    }
}

fn no_such_target_error(name: &str) -> (r: Error)
    ensures
        r@ == no_such_target(name@),
{
    Error::query_execution(
        text::concat3("Target node '", name, "' not found. Specify a valid node alias or UUID."),
    )
}

/// A switchover to the node that `target` names.
pub fn switch_over(c: &ClusterView, name: &str, target: Option<u128>) -> (r: Result<
    AnyOperator,
    Error,
>)
    ensures
        any_operator::builds(r, switched_over(c@, name@, target), None),
{
    let id: u128 = match target {
        Some(id) => id,
        None => {
            return Err(no_such_target_error(name));
        },
    };
    if c.role != HaRole::Primary {
        return Err(
            Error::query_execution(
                "Switchover can only be initiated from the primary node".to_owned(),
            ),
        );
    }
    let shown: String = parsing::show_uuid(id);
    if find_standby(&c.standbys, id).is_none() {
        let mut m: String = text::concat3("Target standby '", name, "' (");
        m.append(shown.as_str());
        m.append(") not found or not connected");
        return Err(Error::query_execution(m));
    }
    let display: &str = match find_node(&c.topology, id) {
        Some(n) => n.display_name.as_str(),
        None => name,
    };
    let mut m: String = text::concat3("Switchover to node ", display, " (");
    m.append(shown.as_str());
    m.append(
        ") initiated. This is a placeholder - full async switchover requires runtime integration.",
    );
    Ok(AnyOperator::of_status(StatusMessageOperator::new(m)))
}

/// A switchover to the node that a name stands for.
pub fn handle_switchover(c: &ClusterView, known: Option<u128>, name: &str) -> (r: Result<
    AnyOperator,
    Error,
>)
    ensures
        any_operator::builds(
            r,
            switched_over(c@, name@, target_node(known, parsing::uuid_spelled(name@))),
            None,
        ),
{
    switch_over(c, name, resolve_target(known, name))
}

/// How far a standby is behind.
pub open spec fn behind(primary: u64, standby: u64) -> u64 {
    if primary >= standby {
        (primary - standby) as u64
    } else {
        0
    }
}

/// The columns of a check.
pub open spec fn check_columns() -> Seq<ColumnModel> {
    acl_views::plain_columns(
        seq![
            ("can_proceed"@, DataType::Boolean),
            ("target_healthy"@, DataType::Boolean),
            ("target_lsn"@, DataType::Int8),
            ("primary_lsn"@, DataType::Int8),
            ("lag_bytes"@, DataType::Int8),
            ("warnings"@, DataType::Text),
            ("blockers"@, DataType::Text),
        ],
    )
}

/// What stands in the way of a switchover.
pub open spec fn blocking(c: ClusterModel, name: Seq<char>, id: u128) -> Seq<Seq<char>> {
    let first = if c.role != HaRole::Primary {
        seq!["This node is not the primary"@]
    } else {
        Seq::empty()
    };
    if standby_with(c.standbys, id, 0) is None {
        first.push("Target node "@ + name + " ("@ + parsing::uuid_text(id) + ") not found"@)
    } else {
        first
    }
}

/// What a switchover has to mind.
pub open spec fn minding(c: ClusterModel, id: u128) -> Seq<Seq<char>> {
    match standby_with(c.standbys, id, 0) {
        Some(s) => if behind(c.lsn, s.apply_lsn) > 0 {
            seq![
                "Target standby is "@ + text::decimal(behind(c.lsn, s.apply_lsn) as nat)
                    + " LSN behind"@,
            ]
        } else {
            Seq::empty()
        },
        None => Seq::empty(),
    }
}

/// The position of a standby in the log, the beginning where there is none.
pub open spec fn position_of(c: ClusterModel, id: u128) -> u64 {
    match standby_with(c.standbys, id, 0) {
        Some(s) => s.apply_lsn,
        None => 0,
    }
}

/// The row of a check: a switchover can proceed where nothing stands in its way.
pub open spec fn check_row(c: ClusterModel, name: Seq<char>, id: u128) -> TupleModel {
    let blockers = blocking(c, name, id);
    let warnings = minding(c, id);
    schema::loose_row(
        seq![
            ValueModel::Boolean(blockers.len() == 0),
            ValueModel::Boolean(standby_with(c.standbys, id, 0) is Some),
            ValueModel::Int8(position_of(c, id) as i64),
            ValueModel::Int8(c.lsn as i64),
            ValueModel::Int8(behind(c.lsn, position_of(c, id)) as i64),
            ValueModel::String(plan_text::joined(warnings, warnings.len(), "; "@)),
            ValueModel::String(plan_text::joined(blockers, blockers.len(), "; "@)),
        ],
    )
}

/// What the check of a switchover gives.
pub open spec fn checked(c: ClusterModel, name: Seq<char>, target: Option<u128>) -> Result<
    Relation,
    ErrorModel,
> {
    match target {
        None => Err(no_such_target(name)),
        Some(id) => Ok(semantics::at_hand(check_columns(), seq![check_row(c, name, id)])),
    }
}

/// A check that goes through means that the switchover goes through too.
pub proof fn law_a_clear_check_means_a_switchover(c: ClusterModel, name: Seq<char>, id: u128)
    ensures
        check_row(c, name, id).values[0] == ValueModel::Boolean(true) <==> switched_over(
            c,
            name,
            Some(id),
        ) is Ok,
{
}

fn check_schema() -> (r: Arc<Schema>)
    ensures
        r@ == check_columns(),
{
    let columns: Vec<Column> =
        vec![
        Column::new("can_proceed", DataType::Boolean),
        Column::new("target_healthy", DataType::Boolean),
        Column::new("target_lsn", DataType::Int8),
        Column::new("primary_lsn", DataType::Int8),
        Column::new("lag_bytes", DataType::Int8),
        Column::new("warnings", DataType::Text),
        Column::new("blockers", DataType::Text),
    ];
    assert(schema::columns_model(columns@) =~= check_columns());
    Arc::new(Schema::new(columns))
}

fn how_far_behind(primary: u64, standby: u64) -> (r: u64)
    ensures
        r == behind(primary, standby),
{
    if primary >= standby {
        primary - standby
    } else {
        0
    }
}

fn list_blockers(c: &ClusterView, name: &str, id: u128, found: bool) -> (r: Vec<String>)
    requires
        found == (standby_with(c@.standbys, id, 0) is Some),
    ensures
        schema::texts(r@) == blocking(c@, name@, id),
{
    let mut out: Vec<String> = Vec::new();
    assert(schema::texts(out@) =~= Seq::<Seq<char>>::empty());
    if c.role != HaRole::Primary {
        out.push("This node is not the primary".to_owned());
        assert(schema::texts(out@) =~= seq!["This node is not the primary"@]);
    }
    if !found {
        let ghost was = schema::texts(out@);
        let mut m: String = text::concat3("Target node ", name, " (");
        m.append(parsing::show_uuid(id).as_str());
        m.append(") not found");
        let ghost w = m@;
        out.push(m);
        assert(schema::texts(out@) =~= was.push(w));
    }
    out
}

/// Checks what a switchover to the node that `target` names would meet.
pub fn check_switchover(c: &ClusterView, name: &str, target: Option<u128>) -> (r: Result<
    AnyOperator,
    Error,
>)
    ensures
        any_operator::builds(r, checked(c@, name@, target), None),
{
    let id: u128 = match target {
        Some(id) => id,
        None => {
            return Err(no_such_target_error(name));
        },
    };
    let mut found: bool = false;
    let mut position: u64 = 0;
    let mut warnings: Vec<String> = Vec::new();
    assert(schema::texts(warnings@) =~= Seq::<Seq<char>>::empty());
    if let Some(s) = find_standby(&c.standbys, id) {
        found = true;
        position = s.apply_lsn;
        let lag: u64 = how_far_behind(c.lsn, position);
        if lag > 0 {
            let m: String = text::concat_number("Target standby is ", lag as u128, " LSN behind");
            let ghost w = m@;
            warnings.push(m);
            assert(schema::texts(warnings@) =~= seq![w]);
        }
    }
    let blockers: Vec<String> = list_blockers(c, name, id, found);
    assert(schema::texts(warnings@).len() == warnings@.len());
    assert(schema::texts(blockers@).len() == blockers@.len());
    let values: Vec<Value> =
        vec![
        Value::Boolean(blockers.len() == 0),
        Value::Boolean(found),
        Value::Int8(position as i64),
        Value::Int8(c.lsn as i64),
        Value::Int8(how_far_behind(c.lsn, position) as i64),
        Value::String(plan_text::join_texts(&warnings, "; ")),
        Value::String(plan_text::join_texts(&blockers, "; ")),
    ];
    let ghost row = check_row(c@, name@, id);
    assert(value::values_model(values@) =~= row.values);
    let t: Tuple = Tuple::new(values);
    let mut rows: Vec<Tuple> = Vec::new();
    rows.push(t);
    assert(schema::rows_model(rows@) =~= seq![row]);
    Ok(handle_rows::rows_at_hand(check_schema(), rows))
}

/// Checks what a switchover to the node that a name stands for would meet.
pub fn handle_switchover_check(c: &ClusterView, known: Option<u128>, name: &str) -> (r: Result<
    AnyOperator,
    Error,
>)
    ensures
        any_operator::builds(
            r,
            checked(c@, name@, target_node(known, parsing::uuid_spelled(name@))),
            None,
        ),
{
    check_switchover(c, name, resolve_target(known, name))
}

/// The columns of the status of a cluster.
pub open spec fn status_columns() -> Seq<ColumnModel> {
    acl_views::plain_columns(
        seq![
            ("node_id"@, DataType::Text),
            ("role"@, DataType::Text),
            ("address"@, DataType::Text),
            ("is_healthy"@, DataType::Boolean),
            ("lsn"@, DataType::Int8),
            ("lag_ms"@, DataType::Int8),
            ("priority"@, DataType::Int4),
        ],
    )
}

/// A role, as the status of a cluster spells it.
pub open spec fn role_text(r: HaRole) -> Seq<char> {
    match r {
        HaRole::Primary => "primary"@,
        HaRole::Standby => "standby"@,
        HaRole::Standalone => "standalone"@,
        HaRole::Observer => "observer"@,
    }
}

/// A role, as the topology of a cluster spells it.
pub open spec fn role_name(r: HaRole) -> Seq<char> {
    match r {
        HaRole::Primary => "Primary"@,
        HaRole::Standby => "Standby"@,
        HaRole::Standalone => "Standalone"@,
        HaRole::Observer => "Observer"@,
    }
}

fn spell_role(r: HaRole) -> (t: &'static str)
    ensures
        t@ == role_text(r),
{
    match r {
        HaRole::Primary => "primary",
        HaRole::Standby => "standby",
        HaRole::Standalone => "standalone",
        HaRole::Observer => "observer",
    }
}

fn name_role(r: HaRole) -> (t: &'static str)
    ensures
        t@ == role_name(r),
{
    match r {
        HaRole::Primary => "Primary",
        HaRole::Standby => "Standby",
        HaRole::Standalone => "Standalone",
        HaRole::Observer => "Observer",
    }
}

/// The row of one node in the status of a cluster. Nodes that are listed are
/// healthy.
pub open spec fn status_row(
    id: u128,
    role: Seq<char>,
    address: Seq<char>,
    lsn: u64,
    lag_ms: u64,
    priority: i32,
) -> TupleModel {
    schema::loose_row(
        seq![
            ValueModel::String(parsing::uuid_text(id)),
            ValueModel::String(role),
            ValueModel::String(address),
            ValueModel::Boolean(true),
            ValueModel::Int8(lsn as i64),
            ValueModel::Int8(lag_ms as i64),
            ValueModel::Int4(priority),
        ],
    )
}

fn make_status_row(id: u128, role: &str, address: &String, lsn: u64, lag_ms: u64, priority: i32) -> (r:
    Tuple)
    ensures
        r@ == status_row(id, role@, address@, lsn, lag_ms, priority),
{
    let values: Vec<Value> =
        vec![
        Value::String(parsing::show_uuid(id)),
        Value::String(role.to_owned()),
        Value::String(address.clone()),
        Value::Boolean(true),
        Value::Int8(lsn as i64),
        Value::Int8(lag_ms as i64),
        Value::Int4(priority),
    ];
    assert(value::values_model(values@) =~= status_row(
        id,
        role@,
        address@,
        lsn,
        lag_ms,
        priority,
    ).values);
    Tuple::new(values)
}

/// The row of this node, where it is set up.
pub open spec fn own_status(c: ClusterModel) -> Seq<TupleModel> {
    match c.config {
        Some(n) => seq![
            status_row(n.node_id, role_text(c.role), n.listen_addr, c.lsn, 0, 100),
        ],
        None => Seq::empty(),
    }
}

/// The rows of the standbys.
pub open spec fn standby_status(s: Seq<StandbyModel>) -> Seq<TupleModel> {
    Seq::new(
        s.len(),
        |i: int|
            status_row(s[i].node_id, "standby"@, s[i].address, s[i].apply_lsn, s[i].lag_ms, 0),
    )
}

/// The status of a cluster: this node, then its standbys.
pub open spec fn cluster_status(c: ClusterModel) -> Relation {
    semantics::at_hand(status_columns(), own_status(c) + standby_status(c.standbys))
}

fn status_schema() -> (r: Arc<Schema>)
    ensures
        r@ == status_columns(),
{
    let columns: Vec<Column> =
        vec![
        Column::new("node_id", DataType::Text),
        Column::new("role", DataType::Text),
        Column::new("address", DataType::Text),
        Column::new("is_healthy", DataType::Boolean),
        Column::new("lsn", DataType::Int8),
        Column::new("lag_ms", DataType::Int8),
        Column::new("priority", DataType::Int4),
    ];
    assert(schema::columns_model(columns@) =~= status_columns());
    Arc::new(Schema::new(columns))
}

/// The status of a cluster.
pub fn handle_cluster_status(c: &ClusterView) -> (r: AnyOperator)
    ensures
        r.gives(cluster_status(c@), None),
{
    let mut rows: Vec<Tuple> = Vec::new();
    assert(schema::rows_model(rows@) =~= Seq::<TupleModel>::empty());
    if let Some(n) = &c.config {
        rows.push(
            make_status_row(n.node_id, spell_role(c.role), &n.listen_addr, c.lsn, 0, 100),
        );
        assert(schema::rows_model(rows@) =~= own_status(c@));
    }
    let ghost own = own_status(c@);
    let ghost all = standby_status(c@.standbys);
    assert(schema::rows_model(rows@) =~= own + all.take(0));
    let mut i: usize = 0;
    while i < c.standbys.len()
        invariant
            all == standby_status(c@.standbys),
            i <= c.standbys@.len(),
            schema::rows_model(rows@) == own + all.take(i as int),
        decreases c.standbys.len() - i,
    {
        let ghost was = schema::rows_model(rows@);
        let s: &StandbyNode = &c.standbys[i];
        let t: Tuple = make_status_row(
            s.node_id,
            "standby",
            &s.address,
            s.apply_lsn,
            s.lag_ms,
            0,
        );
        assert(c@.standbys[i as int] == s@);
        assert(t@ == all[i as int]);
        rows.push(t);
        assert(schema::rows_model(rows@) =~= was.push(t@));
        i += 1;
        assert(own + all.take(i as int) =~= was.push(t@));
    }
    assert(all.take(i as int) =~= all);
    handle_rows::rows_at_hand(status_schema(), rows)
}

/// The columns of the topology of a cluster.
pub open spec fn topology_columns() -> Seq<ColumnModel> {
    acl_views::plain_columns(
        seq![
            ("node_id"@, DataType::Text),
            ("alias"@, DataType::Text),
            ("role"@, DataType::Text),
            ("client_addr"@, DataType::Text),
            ("replication_addr"@, DataType::Text),
            ("healthy"@, DataType::Boolean),
            ("health_msg"@, DataType::Text),
            ("last_seen_secs"@, DataType::Int8),
            ("lsn"@, DataType::Int8),
            ("lag_ms"@, DataType::Int8),
            ("priority"@, DataType::Int4),
            ("weight"@, DataType::Int4),
        ],
    )
}

/// What the topology adds to the row of a node: its other name, its health, its
/// priority and its weight. What it does not know is taken to be ordinary.
#[verifier::ext_equal]
pub struct KnownNode {
    pub alias: Option<Seq<char>>,
    pub health: Option<Seq<char>>,
    pub priority: u32,
    pub weight: u32,
}

pub open spec fn known_node(topology: Seq<TopologyModel>, id: u128) -> KnownNode {
    match node_with(topology, id, 0) {
        Some(n) => KnownNode {
            alias: n.alias,
            health: n.health_message,
            priority: n.priority,
            weight: n.weight,
        },
        None => KnownNode { alias: None, health: None, priority: 100, weight: 100 },
    }
}

/// The row of one node in the topology of a cluster.
pub open spec fn topology_row(
    id: u128,
    known: KnownNode,
    role: Seq<char>,
    client: Seq<char>,
    replication: Seq<char>,
    well: Seq<char>,
    lsn: u64,
    lag_ms: u64,
) -> TupleModel {
    schema::loose_row(
        seq![
            ValueModel::String(parsing::uuid_text(id)),
            match known.alias {
                Some(a) => ValueModel::String(a),
                None => ValueModel::Null,
            },
            ValueModel::String(role),
            ValueModel::String(client),
            ValueModel::String(replication),
            ValueModel::Boolean(true),
            ValueModel::String(
                match known.health {
                    Some(h) => h,
                    None => well,
                },
            ),
            ValueModel::Int8(0),
            ValueModel::Int8(lsn as i64),
            ValueModel::Int8(lag_ms as i64),
            ValueModel::Int4(known.priority as i32),
            ValueModel::Int4(known.weight as i32),
        ],
    )
}

/// The row of this node, where it is set up.
pub open spec fn own_topology(c: ClusterModel) -> Seq<TupleModel> {
    match c.config {
        Some(n) => seq![
            topology_row(
                n.node_id,
                known_node(c.topology, n.node_id),
                role_name(c.role),
                n.listen_addr,
                n.listen_addr + ":"@ + text::decimal(n.replication_port as nat),
                "OK"@,
                c.lsn,
                0,
            ),
        ],
        None => Seq::empty(),
    }
}

/// The rows of the standbys.
pub open spec fn standby_topology(c: ClusterModel) -> Seq<TupleModel> {
    Seq::new(
        c.standbys.len(),
        |i: int|
            topology_row(
                c.standbys[i].node_id,
                known_node(c.topology, c.standbys[i].node_id),
                "Standby"@,
                c.standbys[i].address,
                c.standbys[i].address,
                "Connected"@,
                c.standbys[i].apply_lsn,
                c.standbys[i].lag_ms,
            ),
    )
}

/// The topology of a cluster: this node, then its standbys.
pub open spec fn cluster_topology(c: ClusterModel) -> Relation {
    semantics::at_hand(topology_columns(), own_topology(c) + standby_topology(c))
}

/// Both listings have a row for this node, where it is set up, and one for each
/// standby.
pub proof fn law_both_listings_show_every_node(c: ClusterModel)
    ensures
        (own_status(c) + standby_status(c.standbys)).len() == c.standbys.len() + (
        if c.config is Some {
            1nat
        } else {
            0nat
        }),
        (own_topology(c) + standby_topology(c)).len() == (own_status(c) + standby_status(
            c.standbys,
        )).len(),
        forall|i: int|
            0 <= i < (own_topology(c) + standby_topology(c)).len() ==> (#[trigger] (own_topology(c)
                + standby_topology(c))[i]).values[0] == (own_status(c) + standby_status(
                c.standbys,
            ))[i].values[0],
{
}

fn topology_schema() -> (r: Arc<Schema>)
    ensures
        r@ == topology_columns(),
{
    let columns: Vec<Column> =
        vec![
        Column::new("node_id", DataType::Text),
        Column::new("alias", DataType::Text),
        Column::new("role", DataType::Text),
        Column::new("client_addr", DataType::Text),
        Column::new("replication_addr", DataType::Text),
        Column::new("healthy", DataType::Boolean),
        Column::new("health_msg", DataType::Text),
        Column::new("last_seen_secs", DataType::Int8),
        Column::new("lsn", DataType::Int8),
        Column::new("lag_ms", DataType::Int8),
        Column::new("priority", DataType::Int4),
        Column::new("weight", DataType::Int4),
    ];
    assert(schema::columns_model(columns@) =~= topology_columns());
    Arc::new(Schema::new(columns))
}

fn make_topology_row(
    topology: &Vec<TopologyNode>,
    id: u128,
    role: &str,
    client: &String,
    replication: String,
    well: &str,
    lsn: u64,
    lag_ms: u64,
) -> (r: Tuple)
    ensures
        r@ == topology_row(
            id,
            known_node(topology_model(topology@), id),
            role@,
            client@,
            replication@,
            well@,
            lsn,
            lag_ms,
        ),
{
    let node: Option<&TopologyNode> = find_node(topology, id);
    let alias: Value = match node {
        Some(n) => match &n.alias {
            Some(a) => Value::String(a.clone()),
            None => Value::Null,
        },
        None => Value::Null,
    };
    let health: String = match node {
        Some(n) => match &n.health_message {
            Some(h) => h.clone(),
            None => well.to_owned(),
        },
        None => well.to_owned(),
    };
    let priority: u32 = match node {
        Some(n) => n.priority,
        None => 100,
    };
    let weight: u32 = match node {
        Some(n) => n.weight,
        None => 100,
    };
    let ghost row = topology_row(
        id,
        known_node(topology_model(topology@), id),
        role@,
        client@,
        replication@,
        well@,
        lsn,
        lag_ms,
    );
    let values: Vec<Value> =
        vec![
        Value::String(parsing::show_uuid(id)),
        alias,
        Value::String(role.to_owned()),
        Value::String(client.clone()),
        Value::String(replication),
        Value::Boolean(true),
        Value::String(health),
        Value::Int8(0),
        Value::Int8(lsn as i64),
        Value::Int8(lag_ms as i64),
        Value::Int4(priority as i32),
        Value::Int4(weight as i32),
    ];
    assert(value::values_model(values@) =~= row.values);
    Tuple::new(values)
}

/// The topology of a cluster.
pub fn handle_show_topology(c: &ClusterView) -> (r: AnyOperator)
    ensures
        r.gives(cluster_topology(c@), None),
{
    let mut rows: Vec<Tuple> = Vec::new();
    assert(schema::rows_model(rows@) =~= Seq::<TupleModel>::empty());
    if let Some(n) = &c.config {
        let mut replication: String = n.listen_addr.clone();
        replication.append(":");
        text::append_decimal(&mut replication, n.replication_port as u128);
        rows.push(
            make_topology_row(
                &c.topology,
                n.node_id,
                name_role(c.role),
                &n.listen_addr,
                replication,
                "OK",
                c.lsn,
                0,
            ),
        );
        assert(schema::rows_model(rows@) =~= own_topology(c@));
    }
    let ghost own = own_topology(c@);
    let ghost all = standby_topology(c@);
    assert(schema::rows_model(rows@) =~= own + all.take(0));
    let mut i: usize = 0;
    while i < c.standbys.len()
        invariant
            all == standby_topology(c@),
            i <= c.standbys@.len(),
            schema::rows_model(rows@) == own + all.take(i as int),
        decreases c.standbys.len() - i,
    {
        let ghost was = schema::rows_model(rows@);
        let s: &StandbyNode = &c.standbys[i];
        let t: Tuple = make_topology_row(
            &c.topology,
            s.node_id,
            "Standby",
            &s.address,
            s.address.clone(),
            "Connected",
            s.apply_lsn,
            s.lag_ms,
        );
        assert(c@.standbys[i as int] == s@);
        assert(t@ == all[i as int]);
        rows.push(t);
        assert(schema::rows_model(rows@) =~= was.push(t@));
        i += 1;
        assert(own + all.take(i as int) =~= was.push(t@));
    }
    assert(all.take(i as int) =~= all);
    handle_rows::rows_at_hand(topology_schema(), rows)
}

/// Which node gets which other name; without one it loses the one that it has.
#[verifier::ext_equal]
pub struct AliasModel {
    pub node: u128,
    pub alias: Option<Seq<char>>,
}

/// Which node gets which other name.
#[derive(Debug)]
pub struct AliasChange {
    pub node: u128,
    pub alias: Option<String>,
}

impl View for AliasChange {
    type V = AliasModel;

    open spec fn view(&self) -> AliasModel {
        AliasModel { node: self.node, alias: schema::opt_text(self.alias) }
    }
}

/// What naming a node comes to; `spells_uuid` tells whether the name could be
/// taken for a node's number.
pub open spec fn alias_change(
    node: Seq<char>,
    target: Option<u128>,
    alias: Option<Seq<char>>,
    spells_uuid: bool,
) -> Result<AliasModel, ErrorModel> {
    match target {
        None => Err(
            failure(
                "Node '"@ + node
                    + "' not found in cluster topology. Use SHOW TOPOLOGY to see available nodes."@,
            ),
        ),
        Some(id) => match alias {
            None => Ok(AliasModel { node: id, alias: None }),
            Some(a) => if a.contains(' ') {
                Err(failure("Alias cannot contain spaces"@))
            } else if spells_uuid {
                Err(failure("Alias cannot be a valid UUID format"@))
            } else if a.len() == 0 {
                Err(failure("Alias cannot be empty"@))
            } else {
                Ok(AliasModel { node: id, alias: Some(a) })
            },
        },
    }
}

pub open spec fn change_result(r: Result<AliasChange, Error>) -> Result<AliasModel, ErrorModel> {
    match r {
        Ok(c) => Ok(c@),
        Err(e) => Err(e@),
    }
}

/// What naming the node that `target` names comes to.
pub fn alias_change_given(
    node: &str,
    target: Option<u128>,
    alias: &Option<String>,
    spells_uuid: bool,
) -> (r: Result<AliasChange, Error>)
    ensures
        change_result(r) == alias_change(node@, target, schema::opt_text(*alias), spells_uuid),
{
    let id: u128 = match target {
        Some(id) => id,
        None => {
            return Err(
                Error::query_execution(
                    text::concat3(
                        "Node '",
                        node,
                        "' not found in cluster topology. Use SHOW TOPOLOGY to see available nodes.",
                    ),
                ),
            );
        },
    };
    match alias {
        None => Ok(AliasChange { node: id, alias: None }),
        Some(a) => {
            if text::contains_char(a.as_str(), ' ') {
                Err(Error::query_execution("Alias cannot contain spaces".to_owned()))
            } else if spells_uuid {
                Err(Error::query_execution("Alias cannot be a valid UUID format".to_owned()))
            } else if text::chars_of(a.as_str()).len() == 0 {
                Err(Error::query_execution("Alias cannot be empty".to_owned()))
            } else {
                Ok(AliasChange { node: id, alias: Some(a.clone()) })
            }
        },
    }
}

/// Whether an alias could be taken for a node's number.
pub open spec fn looks_like_uuid(alias: Option<Seq<char>>) -> bool {
    match alias {
        Some(a) => parsing::uuid_spelled(a) is Some,
        None => false,
    }
}

/// What naming the node that a name stands for comes to.
pub fn handle_set_node_alias(node: &str, known: Option<u128>, alias: &Option<String>) -> (r: Result<
    AliasChange,
    Error,
>)
    ensures
        change_result(r) == alias_change(
            node@,
            target_node(known, parsing::uuid_spelled(node@)),
            schema::opt_text(*alias),
            looks_like_uuid(schema::opt_text(*alias)),
        ),
{
    let spells_uuid: bool = match alias {
        Some(a) => parsing::parse_uuid(a.as_str()).is_some(),
        None => false,
    };
    alias_change_given(node, resolve_target(known, node), alias, spells_uuid)
}

/// No node gets a name that could be taken for a node's number, so that a name
/// stands for one node at most.
pub proof fn law_an_alias_is_no_number(
    node: Seq<char>,
    target: Option<u128>,
    alias: Option<Seq<char>>,
)
    ensures
        alias_change(node, target, alias, looks_like_uuid(alias)) matches Ok(c) ==> (
        c.alias matches Some(a) ==> (parsing::uuid_spelled(a) is None && a.len() > 0 && !a.contains(
            ' ',
        ))),
{
}

/// The answer to naming a node, once the topology has `accepted` the name or not.
/// Taking a name away is always accepted.
pub open spec fn alias_answer(c: AliasModel, accepted: bool) -> Result<Relation, ErrorModel> {
    match c.alias {
        Some(a) => if accepted {
            Ok(
                alias_row(
                    "Node alias '"@ + a + "' set for node '"@ + parsing::uuid_text(c.node) + "'"@,
                ),
            )
        } else {
            Err(
                failure(
                    "Failed to set alias: '"@ + a + "' is already in use by another node"@,
                ),
            )
        },
        None => Ok(
            alias_row("Node alias removed for node '"@ + parsing::uuid_text(c.node) + "'"@),
        ),
    }
}

pub open spec fn alias_row(message: Seq<char>) -> Relation {
    semantics::at_hand(
        acl_views::plain_columns(seq![("result"@, DataType::Text)]),
        seq![schema::loose_row(seq![ValueModel::String(message)])],
    )
}

fn make_alias_row(message: String) -> (r: AnyOperator)
    ensures
        r.gives(alias_row(message@), None),
{
    let columns: Vec<Column> = vec![Column::new("result", DataType::Text)];
    assert(schema::columns_model(columns@) =~= acl_views::plain_columns(
        seq![("result"@, DataType::Text)],
    ));
    let ghost m = message@;
    let values: Vec<Value> = vec![Value::String(message)];
    assert(value::values_model(values@) =~= seq![ValueModel::String(m)]);
    let rows: Vec<Tuple> = vec![Tuple::new(values)];
    assert(schema::rows_model(rows@) =~= seq![schema::loose_row(seq![ValueModel::String(m)])]);
    handle_rows::rows_at_hand(Arc::new(Schema::new(columns)), rows)
}

/// The answer to naming a node.
pub fn answer_set_node_alias(c: &AliasChange, accepted: bool) -> (r: Result<AnyOperator, Error>)
    ensures
        any_operator::builds(r, alias_answer(c@, accepted), None),
{
    let shown: String = parsing::show_uuid(c.node);
    match &c.alias {
        Some(a) => {
            if accepted {
                let mut m: String = text::concat3("Node alias '", a.as_str(), "' set for node '");
                m.append(shown.as_str());
                m.append("'");
                Ok(make_alias_row(m))
            } else {
                Err(
                    Error::query_execution(
                        text::concat3(
                            "Failed to set alias: '",
                            a.as_str(),
                            "' is already in use by another node",
                        ),
                    ),
                )
            }
        },
        None => Ok(
            make_alias_row(
                text::concat3("Node alias removed for node '", shown.as_str(), "'"),
            ),
        ),
    }
}

} // verus!
